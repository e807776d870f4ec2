//! What a capture computes on its own: deterministic identities for the
//! packs it writes, and the tree table with canonical pack locators.

use vstd::bytes::*;
use vstd::prelude::*;
use vstd::utf8::encode_utf8;

use crate::digest::{sha256_digest, spec_sha256};
use crate::generation::content_closure::{
    dense_cursor, is_snapshot_record, law_dense_ranges_partition, lemma_dense_cursor_bound,
    range_holds, raw_record, snapshot_table,
    snapshot_table_decodes, tree_pack_ranges, tree_pack_table,
};
use crate::generation::manifest::GenerationFileManifest;
use crate::ids::{be_value, be_value_of};
use crate::schema::codec::{
    le32, le64, lemma_le_lengths, lemma_tree_pack_record_bytes_injective, push_slice, push_u64,
    tree_pack_record_bytes, tree_record_bytes, BinaryTreeCodec, BinaryTreePackCodec,
};
use crate::schema::records::{
    plus_one_index, BinarySnapshotRecord, BinaryTreePackRecord, BinaryTreeRecord,
};
use crate::schema::codec::{
    lemma_snapshot_record_bytes_injective, snapshot_record_bytes, snapshot_record_valid,
    BinarySnapshotCodec,
};
use crate::text::{ascii_lower_seq, spec_strip_prefix, strip_prefix_chars, to_ascii_lowercase};
use crate::generation::activation::{generation_path_ok, names_view, validate_generation_file_path};
use crate::text::{chars_of, hex_lower, owned, push_decimal, push_str, spec_hex_lower, string_from_chars};

verus! {

/// The bytes hashed for a repacked pack: a versioned tag, the domain, and
/// each member id preceded by its UTF-8 length.
pub open spec fn repack_input(domain: Seq<char>, member_ids: Seq<Seq<char>>) -> Seq<u8>
    decreases member_ids.len(),
{
    if member_ids.len() == 0 {
        encode_utf8("ait.binary-db-generation.repack.v1"@) + seq![0u8] + encode_utf8(domain) + seq![0u8]
    } else {
        let id = member_ids.last();
        repack_input(domain, member_ids.drop_last()) + le64(encode_utf8(id).len() as u64)
            + encode_utf8(id)
    }
}

pub open spec fn ids_view(ids: Seq<String>) -> Seq<Seq<char>> {
    Seq::new(ids.len(), |i: int| ids[i]@)
}

/// The 48-bit hash of a repacked pack: the first six bytes of the SHA-256
/// of its repack input, big-endian.
pub fn stable_repack_hash48(domain: &str, member_ids: &[String]) -> (h: u64)
    ensures
        h == be_value(spec_sha256(repack_input(domain@, ids_view(member_ids@))).subrange(0, 6)),
{
    let mut input: Vec<u8> = Vec::new();
    push_slice(&mut input, "ait.binary-db-generation.repack.v1".as_bytes());
    input.push(0);
    push_slice(&mut input, domain.as_bytes());
    input.push(0);
    let mut i: usize = 0;
    proof {
        assert(ids_view(member_ids@).subrange(0, 0) =~= Seq::<Seq<char>>::empty());
    }
    while i < member_ids.len()
        invariant
            i <= member_ids@.len(),
            input@ == repack_input(domain@, ids_view(member_ids@).subrange(0, i as int)),
        decreases member_ids@.len() - i,
    {
        let bytes = member_ids[i].as_str().as_bytes();
        push_u64(&mut input, bytes.len() as u64);
        push_slice(&mut input, bytes);
        proof {
            let prefix = ids_view(member_ids@).subrange(0, i + 1);
            assert(prefix.drop_last() =~= ids_view(member_ids@).subrange(0, i as int));
            assert(prefix.last() == member_ids@[i as int]@);
        }
        i = i + 1;
    }
    proof {
        assert(ids_view(member_ids@).subrange(0, member_ids@.len() as int) =~= ids_view(member_ids@));
    }
    let digest = sha256_digest(input.as_slice());
    let mut head: Vec<u8> = Vec::new();
    let mut k: usize = 0;
    while k < 6
        invariant
            digest@.len() == 32,
            k <= 6,
            head@ == digest@.subrange(0, k as int),
        decreases 6 - k,
    {
        head.push(digest[k]);
        k = k + 1;
        assert(head@ =~= digest@.subrange(0, k as int));
    }
    be_value_of(&head)
}

// ----- canonical tree locators ----------------------------------------------------

/// The file starts with the little-endian layout id 1.
pub open spec fn layout_one(file: Seq<u8>) -> bool {
    file.len() >= 4 && spec_u32_from_le_bytes(file.subrange(0, 4)) == 1
}

/// A stored tree record placed at `ordinal` in its pack: unchanged in a pack
/// with sparse physical ordinals, and with its pack ordinal replaced by
/// `ordinal` in a compact pack.
pub open spec fn canonical_tree_record(raw: Seq<u8>, pack: BinaryTreePackRecord, ordinal: u32) -> Seq<
    u8,
> {
    if pack.spec_has_sparse_physical_ordinals() {
        raw
    } else {
        raw.subrange(0, 2) + le32(ordinal) + raw.subrange(6, 20)
    }
}

pub open spec fn tree_file_count(tree_file: Seq<u8>) -> nat {
    ((tree_file.len() - 4) / 20) as nat
}

pub open spec fn pack_file_count(tree_pack_file: Seq<u8>) -> nat {
    ((tree_pack_file.len() - 4) / 32) as nat
}

/// The tree packs of a tree-pack file.
pub open spec fn tree_packs_of(tree_pack_file: Seq<u8>) -> Seq<BinaryTreePackRecord> {
    tree_pack_table(Some(tree_pack_file), pack_file_count(tree_pack_file))
}

/// Both files hold whole records after a layout-1 header, and the tree
/// packs' ranges tile the tree table in order.
pub open spec fn tree_locators_canonicalizable(tree_file: Seq<u8>, tree_pack_file: Seq<u8>) -> bool {
    &&& tree_file.len() >= 4 && (tree_file.len() - 4) % 20 == 0
    &&& tree_pack_file.len() >= 4 && (tree_pack_file.len() - 4) % 32 == 0
    &&& layout_one(tree_file)
    &&& layout_one(tree_pack_file)
    &&& dense_cursor(
        tree_pack_ranges(tree_packs_of(tree_pack_file)),
        tree_file_count(tree_file),
        pack_file_count(tree_pack_file),
    ) == Some(tree_file_count(tree_file))
}

/// Tree `i`, which lies in pack `c`, has its canonical bytes in `out`.
pub open spec fn canonical_at(
    out: Seq<u8>,
    tree_file: Seq<u8>,
    packs: Seq<BinaryTreePackRecord>,
    c: int,
    i: int,
) -> bool {
    raw_record(Some(out), 20, i) == canonical_tree_record(
        raw_record(Some(tree_file), 20, i),
        packs[c],
        (i - packs[c].first_tree_index) as u32,
    )
}

/// `out` is the tree table `tree_file` with canonical locators: the same
/// header, and each tree of each pack in its canonical form.
pub open spec fn is_canonical_tree_file(out: Seq<u8>, tree_file: Seq<u8>, tree_pack_file: Seq<u8>) -> bool {
    let packs = tree_packs_of(tree_pack_file);
    &&& out.len() == tree_file.len()
    &&& out.subrange(0, 4) == tree_file.subrange(0, 4)
    &&& forall|c: int, i: int|
        #![trigger packs[c], raw_record(Some(out), 20, i)]
        0 <= c < packs.len() && packs[c].first_tree_index <= i < packs[c].first_tree_index
            + packs[c].tree_count ==> canonical_at(out, tree_file, packs, c, i)
}

/// After canonicalization every tree of a compact tree pack stores, in the
/// ordinal field of its record (bytes 2 to 6), its dense ordinal in that
/// pack: the rule that the content closure checks.
pub proof fn law_canonical_locators_are_dense(
    tree_file: Seq<u8>,
    tree_pack_file: Seq<u8>,
    out: Seq<u8>,
    c: int,
    i: int,
)
    requires
        tree_locators_canonicalizable(tree_file, tree_pack_file),
        is_canonical_tree_file(out, tree_file, tree_pack_file),
        0 <= c < tree_packs_of(tree_pack_file).len(),
        !tree_packs_of(tree_pack_file)[c].spec_has_sparse_physical_ordinals(),
        tree_packs_of(tree_pack_file)[c].first_tree_index <= i < tree_packs_of(tree_pack_file)[c].first_tree_index
            + tree_packs_of(tree_pack_file)[c].tree_count,
    ensures
        raw_record(Some(out), 20, i).subrange(2, 6) == le32(
            (i - tree_packs_of(tree_pack_file)[c].first_tree_index) as u32,
        ),
{
    let packs = tree_packs_of(tree_pack_file);
    let nt = tree_file_count(tree_file);
    let np = pack_file_count(tree_pack_file);
    let ranges = tree_pack_ranges(packs);
    assert(packs.len() == np);
    lemma_dense_cursor_bound(ranges, nt, np, c);
    assert(ranges[c].0 == packs[c].first_tree_index && ranges[c].1 == packs[c].tree_count);
    assert(canonical_at(out, tree_file, packs, c, i));
    assert(tree_file.len() == 4 + 20 * nt) by (nonlinear_arith)
        requires
            (tree_file.len() - 4) % 20 == 0,
            nt == (tree_file.len() - 4) / 20,
            tree_file.len() >= 4,
    ;
    assert(4 + (i + 1) * 20 <= tree_file.len()) by (nonlinear_arith)
        requires
            0 <= i < nt,
            tree_file.len() == 4 + 20 * nt,
    ;
    let raw = raw_record(Some(tree_file), 20, i);
    assert(raw.len() == 20);
    lemma_le_lengths();
    let o = (i - packs[c].first_tree_index) as u32;
    assert((raw.subrange(0, 2) + le32(o) + raw.subrange(6, 20)).subrange(2, 6) =~= le32(o));
}

/// Two table files with the same header and the same records are equal.
proof fn lemma_records_determine(a: Seq<u8>, b: Seq<u8>, n: nat)
    requires
        a.len() == 4 + 20 * n,
        b.len() == a.len(),
        a.subrange(0, 4) == b.subrange(0, 4),
        forall|i: int| 0 <= i < n ==> #[trigger] raw_record(Some(a), 20, i) == raw_record(Some(b), 20, i),
    ensures
        a == b,
{
    assert forall|j: int| 0 <= j < a.len() implies a[j] == b[j] by {
        if j < 4 {
            assert(a[j] == a.subrange(0, 4)[j]);
            assert(b[j] == b.subrange(0, 4)[j]);
        } else {
            let i = (j - 4) / 20;
            assert(4 + 20 * i <= j < 4 + 20 * (i + 1) && 0 <= i < n) by (nonlinear_arith)
                requires
                    4 <= j < 4 + 20 * n,
                    i == (j - 4) / 20,
            ;
            assert(4 + (i + 1) * 20 <= a.len()) by (nonlinear_arith)
                requires
                    i < n,
                    a.len() == 4 + 20 * n,
            ;
            assert(raw_record(Some(a), 20, i) == raw_record(Some(b), 20, i));
            assert(a[j] == raw_record(Some(a), 20, i)[j - 4 - i * 20]);
            assert(b[j] == raw_record(Some(b), 20, i)[j - 4 - i * 20]);
        }
    }
    assert(a =~= b);
}

/// Canonical locators are a fixed point: a canonicalized tree table can be
/// canonicalized again against the same tree packs, and that gives it back
/// byte for byte.
pub proof fn law_canonical_locators_are_stable(
    tree_file: Seq<u8>,
    tree_pack_file: Seq<u8>,
    out: Seq<u8>,
    again: Seq<u8>,
)
    requires
        tree_locators_canonicalizable(tree_file, tree_pack_file),
        is_canonical_tree_file(out, tree_file, tree_pack_file),
        is_canonical_tree_file(again, out, tree_pack_file),
    ensures
        tree_locators_canonicalizable(out, tree_pack_file),
        again == out,
{
    let packs = tree_packs_of(tree_pack_file);
    let nt = tree_file_count(tree_file);
    let np = pack_file_count(tree_pack_file);
    let ranges = tree_pack_ranges(packs);
    assert(packs.len() == np);
    assert(ranges.len() == np);
    assert(out.subrange(0, 4) == tree_file.subrange(0, 4));
    assert(tree_file_count(out) == nt);
    assert(tree_file.len() == 4 + 20 * nt) by (nonlinear_arith)
        requires
            (tree_file.len() - 4) % 20 == 0,
            nt == (tree_file.len() - 4) / 20,
            tree_file.len() >= 4,
    ;
    assert forall|i: int| 0 <= i < nt implies #[trigger] raw_record(Some(again), 20, i) == raw_record(
        Some(out),
        20,
        i,
    ) by {
        law_dense_ranges_partition(ranges, nt, i);
        let c = choose|c: int| 0 <= c < ranges.len() && range_holds(#[trigger] ranges[c], i);
        assert(ranges[c].0 == packs[c].first_tree_index && ranges[c].1 == packs[c].tree_count);
        assert(canonical_at(out, tree_file, packs, c, i));
        assert(canonical_at(again, out, packs, c, i));
        assert(4 + (i + 1) * 20 <= tree_file.len()) by (nonlinear_arith)
            requires
                0 <= i < nt,
                tree_file.len() == 4 + 20 * nt,
        ;
        let raw = raw_record(Some(tree_file), 20, i);
        assert(raw.len() == 20);
        lemma_le_lengths();
        let o = (i - packs[c].first_tree_index) as u32;
        if !packs[c].spec_has_sparse_physical_ordinals() {
            let once = raw.subrange(0, 2) + le32(o) + raw.subrange(6, 20);
            assert(once.subrange(0, 2) =~= raw.subrange(0, 2));
            assert(once.subrange(6, 20) =~= raw.subrange(6, 20));
        }
    }
    lemma_records_determine(again, out, nt);
}

proof fn lemma_record_append(out: Seq<u8>, enc: Seq<u8>, n: int, i: int)
    requires
        out.len() == 4 + 20 * n,
        enc.len() == 20,
        0 <= i <= n,
    ensures
        raw_record(Some(out + enc), 20, i) == if i < n {
            raw_record(Some(out), 20, i)
        } else {
            enc
        },
{
    let joined = out + enc;
    if i < n {
        assert(4 + (i + 1) * 20 <= out.len()) by (nonlinear_arith)
            requires
                i < n,
                out.len() == 4 + 20 * n,
        ;
        assert(joined.subrange(4 + i * 20, 4 + (i + 1) * 20) =~= out.subrange(4 + i * 20, 4 + (i + 1) * 20));
    } else {
        assert(i * 20 == 20 * n) by (nonlinear_arith)
            requires
                i == n,
        ;
        assert(joined.subrange(4 + i * 20, 4 + (i + 1) * 20) =~= enc);
    }
}

proof fn lemma_tree_ordinal_bytes(
    rec: crate::schema::records::BinaryTreeRecord,
    raw: Seq<u8>,
    ordinal: u32,
)
    requires
        tree_record_bytes(rec) == raw,
    ensures
        tree_record_bytes(
            crate::schema::records::BinaryTreeRecord { pack_entry_ordinal: ordinal, ..rec },
        ) == raw.subrange(0, 2) + le32(ordinal) + raw.subrange(6, 20),
{
    lemma_le_lengths();
    let rec2 = crate::schema::records::BinaryTreeRecord { pack_entry_ordinal: ordinal, ..rec };
    assert(raw.subrange(0, 2) =~= seq![rec.tree_meta, rec.reserved0]);
    assert(raw.subrange(6, 20) =~= le32(rec.entry_count) + rec.tree_hash80@);
    assert(tree_record_bytes(rec2) =~= raw.subrange(0, 2) + le32(ordinal) + raw.subrange(6, 20));
}

/// Number of `record_size`-byte records after the header of a table file of
/// `byte_size` bytes.
fn table_record_count(relative_path: &str, byte_size: u64, record_size: u64) -> (r: Result<u64, String>)
    requires
        record_size > 0,
    ensures
        r is Ok <==> byte_size >= 4 && (byte_size - 4) % (record_size as int) == 0,
        r matches Ok(n) ==> n == (byte_size - 4) / (record_size as int),
{
    if byte_size < 4 {
        let mut v = chars_of("Binary DB file is shorter than its header: ");
        push_str(&mut v, relative_path);
        return Err(string_from_chars(&v));
    }
    let body = byte_size - 4;
    if body % record_size != 0 {
        let mut v = chars_of("Binary DB file is misaligned for ");
        push_decimal(&mut v, record_size);
        push_str(&mut v, "-byte records: ");
        push_str(&mut v, relative_path);
        return Err(string_from_chars(&v));
    }
    Ok(body / record_size)
}

/// Rewrites a tree table so that every tree of a compact tree pack carries
/// its dense ordinal in that pack, and describes the result for the
/// generation manifest. Succeeds exactly when both tables have layout 1,
/// hold whole records, and the tree packs tile the tree table in order;
/// the result keeps the header and every other byte of each record.
pub fn canonicalize_tree_locators(relative_path: &str, tree_file: &[u8], tree_pack_file: &[u8]) -> (r:
    Result<(Vec<u8>, GenerationFileManifest), String>)
    ensures
        r is Ok <==> tree_locators_canonicalizable(tree_file@, tree_pack_file@),
        r matches Ok((bytes, m)) ==> {
            &&& is_canonical_tree_file(bytes@, tree_file@, tree_pack_file@)
            &&& m.relative_path@ == relative_path@
            &&& m.byte_size == tree_file@.len()
            &&& m.sha256@ == spec_hex_lower(spec_sha256(bytes@))
            &&& m.record_count == Some(tree_file_count(tree_file@) as u64)
        },
{
    let ghost tf = tree_file@;
    let ghost pf = tree_pack_file@;
    let tree_bytes = tree_file.len() as u64;
    let pack_bytes = tree_pack_file.len() as u64;
    let tree_count = table_record_count("local/tree.bin", tree_bytes, 20)?;
    let pack_count = table_record_count("local/tree_pack.bin", pack_bytes, 32)?;
    let tree_layout = u32_from_le_bytes(vstd::slice::slice_subrange(tree_file, 0, 4));
    let pack_layout = u32_from_le_bytes(vstd::slice::slice_subrange(tree_pack_file, 0, 4));
    if tree_layout != 1 || pack_layout != 1 {
        let mut v = chars_of("tree capture requires layout 1 tree.bin and tree_pack.bin, got ");
        push_decimal(&mut v, tree_layout as u64);
        push_str(&mut v, " and ");
        push_decimal(&mut v, pack_layout as u64);
        return Err(string_from_chars(&v));
    }
    let ghost nt = tree_file_count(tf);
    let ghost np = pack_file_count(pf);
    let ghost packs = tree_packs_of(pf);
    let ghost ranges = tree_pack_ranges(packs);
    assert(tree_count == nt && pack_count == np);
    assert(tf.len() == 4 + 20 * nt) by (nonlinear_arith)
        requires
            (tf.len() - 4) % 20 == 0,
            nt == (tf.len() - 4) / 20,
            tf.len() >= 4,
    ;
    assert(pf.len() == 4 + 32 * np) by (nonlinear_arith)
        requires
            (pf.len() - 4) % 32 == 0,
            np == (pf.len() - 4) / 32,
            pf.len() >= 4,
    ;
    let mut out: Vec<u8> = Vec::new();
    push_slice(&mut out, vstd::slice::slice_subrange(tree_file, 0, 4));
    let mut next: u64 = 0;
    let mut k: u64 = 0;
    while k < pack_count
        invariant
            tf == tree_file@,
            pf == tree_pack_file@,
            nt == tree_count,
            np == pack_count,
            packs == tree_packs_of(pf),
            ranges == tree_pack_ranges(packs),
            np == pack_file_count(pf),
            nt == tree_file_count(tf),
            packs.len() == np,
            tf.len() == 4 + 20 * nt,
            pf.len() == 4 + 32 * np,
            (tf.len() - 4) % 20 == 0,
            (pf.len() - 4) % 32 == 0,
            k <= np,
            next <= nt,
            dense_cursor(ranges, nt, k as nat) == Some(next as nat),
            out@.len() == 4 + 20 * next,
            out@.subrange(0, 4) == tf.subrange(0, 4),
            forall|c: int, i: int|
                #![trigger packs[c], raw_record(Some(out@), 20, i)]
                0 <= c < k && packs[c].first_tree_index <= i < packs[c].first_tree_index
                    + packs[c].tree_count ==> canonical_at(out@, tf, packs, c, i),
        decreases np - k,
    {
        assert(4 + (k + 1) * 32 <= pf.len()) by (nonlinear_arith)
            requires
                k < np,
                pf.len() == 4 + 32 * np,
        ;
        assert(k * 32 + 32 == (k + 1) * 32) by (nonlinear_arith);
        let total_p = tree_pack_file.len();
        let ku = k as usize;
        assert(4 + ku * 32 + 32 <= total_p) by (nonlinear_arith)
            requires
                ku == k,
                4 + (k + 1) * 32 <= total_p,
        ;
        let start = 4 + ku * 32;
        let raw_pack = vstd::slice::slice_subrange(tree_pack_file, start, start + 32);
        assert(raw_pack@ == raw_record(Some(pf), 32, k as int));
        let pack = match BinaryTreePackCodec::<1>::decode_record(raw_pack) {
            Ok(p) => p,
            Err(_) => {
                assert(false);
                return Err(owned("invalid tree pack record"));
            },
        };
        proof {
            let c = choose|r: BinaryTreePackRecord| tree_pack_record_bytes(r) == raw_record(Some(pf), 32, k as int);
            lemma_tree_pack_record_bytes_injective(c, pack);
            assert(pack == packs[k as int]);
        }
        if pack.first_tree_index as u64 != next {
            proof {
                assert(ranges[k as int].0 == pack.first_tree_index);
                assert(dense_cursor(ranges, nt, (k + 1) as nat) is None);
                crate::generation::content_closure::lemma_dense_cursor_none(
                    ranges,
                    nt,
                    (k + 1) as nat,
                    np,
                );
            }
            let mut v = chars_of("tree pack record ");
            push_decimal(&mut v, k);
            push_str(&mut v, " starts at ");
            push_decimal(&mut v, pack.first_tree_index as u64);
            push_str(&mut v, ", expected dense tree index ");
            push_decimal(&mut v, next);
            return Err(string_from_chars(&v));
        }
        let ghost out_before = out@;
        let mut j: u32 = 0;
        while j < pack.tree_count
            invariant
                tf == tree_file@,
                nt == tree_count,
                packs == tree_packs_of(pf),
                ranges == tree_pack_ranges(packs),
                pack == packs[k as int],
                pf == tree_pack_file@,
                np == pack_file_count(pf),
                packs.len() == np,
                k < np,
                tf.len() == 4 + 20 * nt,
                j <= pack.tree_count,
                next == pack.first_tree_index + j,
                next <= nt,
                out@.len() == 4 + 20 * next,
                out@.subrange(0, 4) == tf.subrange(0, 4),
                dense_cursor(ranges, nt, k as nat) == Some(pack.first_tree_index as nat),
                forall|c: int, i: int|
                    #![trigger packs[c], raw_record(Some(out@), 20, i)]
                    0 <= c < k && packs[c].first_tree_index <= i < packs[c].first_tree_index
                        + packs[c].tree_count ==> canonical_at(out@, tf, packs, c, i),
                forall|i: int|
                    pack.first_tree_index <= i < next ==> #[trigger] canonical_at(
                        out@,
                        tf,
                        packs,
                        k as int,
                        i,
                    ),
            decreases pack.tree_count - j,
        {
            if next >= tree_count {
                proof {
                    assert(ranges[k as int].0 == pack.first_tree_index);
                    assert(ranges[k as int].1 == pack.tree_count);
                    assert(dense_cursor(ranges, nt, (k + 1) as nat) is None);
                    crate::generation::content_closure::lemma_dense_cursor_none(
                        ranges,
                        nt,
                        (k + 1) as nat,
                        np,
                    );
                }
                let mut v = chars_of("tree pack record ");
                push_decimal(&mut v, k);
                push_str(&mut v, " exceeds the ");
                push_decimal(&mut v, tree_count);
                push_str(&mut v, "-record tree.bin authority");
                return Err(string_from_chars(&v));
            }
            assert(4 + (next + 1) * 20 <= tf.len()) by (nonlinear_arith)
                requires
                    next < nt,
                    tf.len() == 4 + 20 * nt,
            ;
            assert(next * 20 + 20 == (next + 1) * 20) by (nonlinear_arith);
            let total_t = tree_file.len();
            let nu = next as usize;
            assert(4 + nu * 20 + 20 <= total_t) by (nonlinear_arith)
                requires
                    nu == next,
                    4 + (next + 1) * 20 <= total_t,
            ;
            let at = 4 + nu * 20;
            let raw_tree = vstd::slice::slice_subrange(tree_file, at, at + 20);
            assert(raw_tree@ == raw_record(Some(tf), 20, next as int));
            let mut tree = match BinaryTreeCodec::<1>::decode_record(raw_tree) {
                Ok(t) => t,
                Err(_) => {
                    assert(false);
                    return Err(owned("invalid tree record"));
                },
            };
            let ghost decoded = tree;
            if !pack.has_sparse_physical_ordinals() {
                tree.pack_entry_ordinal = j;
                proof {
                    lemma_tree_ordinal_bytes(decoded, raw_tree@, j);
                }
            }
            let encoded = match BinaryTreeCodec::<1>::encode_record(&tree) {
                Ok(e) => e,
                Err(_) => {
                    assert(false);
                    return Err(owned("failed to encode tree record"));
                },
            };
            assert(encoded@ == canonical_tree_record(raw_tree@, pack, j));
            let ghost old_out = out@;
            push_slice(&mut out, encoded.as_slice());
            proof {
                lemma_le_lengths();
                assert(out@ == old_out + encoded@);
                assert(out@.subrange(0, 4) =~= old_out.subrange(0, 4));
                assert forall|c: int, i: int|
                    #![trigger packs[c], raw_record(Some(out@), 20, i)]
                    0 <= c < k && packs[c].first_tree_index <= i < packs[c].first_tree_index
                        + packs[c].tree_count implies canonical_at(out@, tf, packs, c, i) by {
                    assert(canonical_at(old_out, tf, packs, c, i));
                    lemma_dense_cursor_bound(ranges, nt, k as nat, c);
                    assert(ranges[c].0 == packs[c].first_tree_index && ranges[c].1
                        == packs[c].tree_count);
                    lemma_record_append(old_out, encoded@, next as int, i);
                }
                assert forall|i: int|
                    pack.first_tree_index <= i < next + 1 implies #[trigger] canonical_at(
                        out@,
                        tf,
                        packs,
                        k as int,
                        i,
                    ) by {
                    lemma_record_append(old_out, encoded@, next as int, i);
                    if i < next {
                        assert(canonical_at(old_out, tf, packs, k as int, i));
                    } else {
                        assert(i == next);
                        assert((i - packs[k as int].first_tree_index) as u32 == j);
                        assert(raw_record(Some(tf), 20, i) == raw_tree@);
                    }
                }
            }
            next = next + 1;
            j = j + 1;
        }
        proof {
            assert(ranges[k as int].0 == pack.first_tree_index);
            assert(ranges[k as int].1 == pack.tree_count);
            assert(dense_cursor(ranges, nt, (k + 1) as nat) == Some(next as nat));
        }
        k = k + 1;
    }
    if next != tree_count {
        let mut v = chars_of("tree pack ranges cover ");
        push_decimal(&mut v, next);
        push_str(&mut v, " tree records, but tree.bin contains ");
        push_decimal(&mut v, tree_count);
        return Err(string_from_chars(&v));
    }
    assert(out@.len() == tf.len());
    let digest = sha256_digest(out.as_slice());
    let manifest = GenerationFileManifest {
        relative_path: relative_path.to_owned(),
        byte_size: tree_bytes,
        sha256: hex_lower(&digest),
        record_count: Some(tree_count),
    };
    Ok((out, manifest))
}

// ----- capture requests and results -----------------------------------------------

/// What a capture is asked to do; paths are given as text.
#[derive(Clone, Debug, PartialEq, Eq)]
pub struct CaptureBinaryDbGenerationOptions {
    pub repo_root: String,
    pub output_root: String,
    pub jobs: usize,
}

/// What a capture produced.
#[derive(Clone, Debug, PartialEq, Eq)]
pub struct CaptureBinaryDbGenerationReport {
    pub output_root: String,
    pub repo_name: String,
    pub worker_count: usize,
    pub source_authority_fingerprint: String,
    pub content_fingerprint: String,
    pub file_count: usize,
}

/// Whether std's `Path::file_name` finds a final component in `path`.
pub uninterp spec fn spec_path_has_file_name(path: Seq<char>) -> bool;

/// std `Path::file_name(..).is_some()`: whether the path has a final
/// component. What it returns is named by `spec_path_has_file_name`, a
/// function of the path's text; nothing else is stated of it.
#[verifier::external_body]
fn path_has_file_name(path: &str) -> (r: bool)
    ensures
        r == spec_path_has_file_name(path@),
{
    std::path::Path::new(path).file_name().is_some()
}

impl CaptureBinaryDbGenerationOptions {
    /// Accepts the options exactly when at least one job is asked for, the
    /// output root does not exist yet (`output_root_exists` says whether it
    /// does), and the output root has a final path component.
    pub fn validate(self, output_root_exists: bool) -> (r: Result<Self, String>)
        ensures
            r is Ok <==> self.jobs != 0 && !output_root_exists && spec_path_has_file_name(
                self.output_root@,
            ),
            r matches Ok(o) ==> o == self,
            r matches Err(e) ==> e@ == if self.jobs == 0 {
                "--jobs must be at least 1"@
            } else if output_root_exists {
                "output root must not already exist: "@ + self.output_root@
            } else {
                "output root must have a final path component: "@ + self.output_root@
            },
    {
        if self.jobs == 0 {
            return Err(owned("--jobs must be at least 1"));
        }
        if output_root_exists {
            let mut v = chars_of("output root must not already exist: ");
            push_str(&mut v, self.output_root.as_str());
            return Err(string_from_chars(&v));
        }
        if !path_has_file_name(self.output_root.as_str()) {
            let mut v = chars_of("output root must have a final path component: ");
            push_str(&mut v, self.output_root.as_str());
            return Err(string_from_chars(&v));
        }
        Ok(self)
    }
}

/// The checks a capture reports as passed, in order.
pub open spec fn capture_check_texts() -> Seq<Seq<char>> {
    seq![
        "all-domain Binary DB read lock held through capture"@,
        "source authority content fingerprint recorded while the all-domain read lock was held"@,
        "authority output matches the exact repository Binary DB schema registry"@,
        "undeclared and retired storage files were rejected before content planning"@,
        "tree.bin locators were canonicalized from declared tree-pack ranges and verified against pack payloads"@,
        "source Snapshot records decoded directly as the canonical typed DAG schema"@,
        "explicit Task and Change authorities were copied only through the declared repository schema"@,
        "Snapshot-root-reachable content was rebuilt into dense live-only object/tree packs and metadata; Snapshot root locators were remapped and disconnected source rows were omitted"@,
        "copy used bounded streaming buffers"@,
    ]
}

/// The validation checks recorded in a capture manifest.
pub fn capture_validation_checks() -> (checks: Vec<String>)
    ensures
        checks@.len() == capture_check_texts().len(),
        forall|i: int| 0 <= i < checks@.len() ==> (#[trigger] checks@[i])@ == capture_check_texts()[i],
{
    let mut checks: Vec<String> = Vec::new();
    checks.push(owned("all-domain Binary DB read lock held through capture"));
    checks.push(
        owned(
            "source authority content fingerprint recorded while the all-domain read lock was held",
        ),
    );
    checks.push(owned("authority output matches the exact repository Binary DB schema registry"));
    checks.push(owned("undeclared and retired storage files were rejected before content planning"));
    checks.push(
        owned(
            "tree.bin locators were canonicalized from declared tree-pack ranges and verified against pack payloads",
        ),
    );
    checks.push(owned("source Snapshot records decoded directly as the canonical typed DAG schema"));
    checks.push(
        owned(
            "explicit Task and Change authorities were copied only through the declared repository schema",
        ),
    );
    checks.push(
        owned(
            "Snapshot-root-reachable content was rebuilt into dense live-only object/tree packs and metadata; Snapshot root locators were remapped and disconnected source rows were omitted",
        ),
    );
    checks.push(owned("copy used bounded streaming buffers"));
    checks
}

// ----- generated pack paths -------------------------------------------------------

/// `value` with every backslash turned into a slash.
pub open spec fn spec_slashes(value: Seq<char>) -> Seq<char> {
    Seq::new(value.len(), |i: int| if value[i] == '\\' { '/' } else { value[i] })
}

/// A pack path that a pack writer reported, with its separators made
/// canonical. Accepted exactly when the result is a valid generation path
/// (see `validate_generation_file_path`) below `.ait/objects/`.
pub fn normalize_pack_relative_path(
    value: &str,
    declared_bin_paths: &[&str],
    declared_index_paths: &[&str],
) -> (r: Result<String, String>)
    ensures
        r is Ok <==> generation_path_ok(
            spec_slashes(value@),
            names_view(declared_bin_paths@),
            names_view(declared_index_paths@),
        ) && spec_strip_prefix(spec_slashes(value@), ".ait/objects/"@) is Some,
        r matches Ok(p) ==> p@ == spec_slashes(value@),
{
    let chars = chars_of(value);
    let mut out: Vec<char> = Vec::new();
    let mut i: usize = 0;
    while i < chars.len()
        invariant
            chars@ == value@,
            i <= chars@.len(),
            out@ == spec_slashes(value@).subrange(0, i as int),
        decreases chars@.len() - i,
    {
        if chars[i] == '\\' {
            out.push('/');
        } else {
            out.push(chars[i]);
        }
        i = i + 1;
        assert(out@ =~= spec_slashes(value@).subrange(0, i as int));
    }
    assert(out@ =~= spec_slashes(value@));
    let normalized = string_from_chars(&out);
    if let Err(e) = validate_generation_file_path(
        normalized.as_str(),
        declared_bin_paths,
        declared_index_paths,
    ) {
        let mut v = chars_of("invalid generated pack path \"");
        push_str(&mut v, value);
        push_str(&mut v, "\": ");
        push_str(&mut v, e.as_str());
        return Err(string_from_chars(&v));
    }
    if strip_prefix_chars(&out, ".ait/objects/").is_none() {
        let mut v = chars_of("pack path is outside .ait/objects/: \"");
        push_str(&mut v, value);
        push_str(&mut v, "\"");
        return Err(string_from_chars(&v));
    }
    Ok(normalized)
}

// ----- tree locators of repacked content ---------------------------------------------

/// The place a retained tree got in the repacked tree packs.
#[derive(Clone, Copy, Debug, PartialEq, Eq)]
pub struct RepackedTreeLocator {
    pub tree_pack_index: u32,
    pub pack_entry_ordinal: u32,
}

/// Tree `t` lies in the pack's range and stores `ordinal`.
pub open spec fn holds_ordinal(pack: BinaryTreePackRecord, ordinal: u32, trees: Seq<BinaryTreeRecord>, t: int) -> bool {
    pack.first_tree_index <= t < pack.first_tree_index + pack.tree_count && trees[t].pack_entry_ordinal
        == ordinal
}

/// Tree `t` is the only tree of the pack's range that stores `ordinal`.
pub open spec fn sole_holder(pack: BinaryTreePackRecord, ordinal: u32, trees: Seq<BinaryTreeRecord>, t: int) -> bool {
    &&& holds_ordinal(pack, ordinal, trees, t)
    &&& forall|u: int| #[trigger] holds_ordinal(pack, ordinal, trees, u) ==> u == t
}

/// The tree index of the tree at `ordinal` of a pack: the dense position in
/// a compact pack, and in a pack with sparse physical ordinals the one tree
/// of its range that stores that ordinal.
pub open spec fn spec_tree_index_for_ordinal(
    pack: BinaryTreePackRecord,
    ordinal: u32,
    trees: Seq<BinaryTreeRecord>,
) -> Option<u32> {
    if !pack.spec_has_sparse_physical_ordinals() {
        if ordinal < pack.tree_count && pack.first_tree_index + ordinal <= u32::MAX {
            Some((pack.first_tree_index + ordinal) as u32)
        } else {
            None
        }
    } else if pack.first_tree_index + pack.tree_count > u32::MAX || pack.first_tree_index
        + pack.tree_count > trees.len() {
        None
    } else if exists|t: int| #[trigger] sole_holder(pack, ordinal, trees, t) {
        Some((choose|t: int| #[trigger] sole_holder(pack, ordinal, trees, t)) as u32)
    } else {
        None
    }
}

/// Resolves the tree at `ordinal` of a tree pack.
pub fn source_tree_index_for_pack_ordinal(
    pack: &BinaryTreePackRecord,
    pack_entry_ordinal: u32,
    tree_records: &[BinaryTreeRecord],
) -> (r: Result<u32, String>)
    ensures
        match r {
            Ok(t) => spec_tree_index_for_ordinal(*pack, pack_entry_ordinal, tree_records@) == Some(t),
            Err(_) => spec_tree_index_for_ordinal(*pack, pack_entry_ordinal, tree_records@) is None,
        },
{
    if !pack.has_sparse_physical_ordinals() {
        if pack_entry_ordinal >= pack.tree_count {
            let mut v = chars_of("ordinal ");
            push_decimal(&mut v, pack_entry_ordinal as u64);
            push_str(&mut v, " is outside tree pack count ");
            push_decimal(&mut v, pack.tree_count as u64);
            return Err(string_from_chars(&v));
        }
        return match pack.first_tree_index.checked_add(pack_entry_ordinal) {
            Some(t) => Ok(t),
            None => Err(owned("tree pack root index overflows u32")),
        };
    }
    let end = match pack.first_tree_index.checked_add(pack.tree_count) {
        Some(end) => end,
        None => {
            return Err(owned("tree pack range overflows u32"));
        },
    };
    let ghost p = *pack;
    let ghost trees = tree_records@;
    let mut found: Option<u32> = None;
    let mut t: u32 = pack.first_tree_index;
    while t < end
        invariant
            p == *pack,
            p.spec_has_sparse_physical_ordinals(),
            trees == tree_records@,
            end == p.first_tree_index + p.tree_count,
            p.first_tree_index <= t <= end,
            t == p.first_tree_index || t <= trees.len(),
            match found {
                Some(f) => holds_ordinal(p, pack_entry_ordinal, trees, f as int) && f < t && forall|u: int|
                    u < t && #[trigger] holds_ordinal(p, pack_entry_ordinal, trees, u) ==> u == f,
                None => forall|u: int|
                    u < t ==> !#[trigger] holds_ordinal(p, pack_entry_ordinal, trees, u),
            },
        decreases end - t,
    {
        if t as usize >= tree_records.len() {
            let mut v = chars_of("tree pack references missing tree ");
            push_decimal(&mut v, t as u64);
            return Err(string_from_chars(&v));
        }
        if tree_records[t as usize].pack_entry_ordinal == pack_entry_ordinal {
            assert(holds_ordinal(p, pack_entry_ordinal, trees, t as int));
            match found {
                Some(existing) => {
                    proof {
                        assert forall|w: int| !#[trigger] sole_holder(p, pack_entry_ordinal, trees, w) by {
                            if sole_holder(p, pack_entry_ordinal, trees, w) {
                                assert(holds_ordinal(p, pack_entry_ordinal, trees, existing as int));
                                assert(existing as int == w);
                                assert(t as int == w);
                            }
                        }
                    }
                    let mut v = chars_of("tree pack physical ordinal ");
                    push_decimal(&mut v, pack_entry_ordinal as u64);
                    push_str(&mut v, " is shared by trees ");
                    push_decimal(&mut v, existing as u64);
                    push_str(&mut v, " and ");
                    push_decimal(&mut v, t as u64);
                    return Err(string_from_chars(&v));
                },
                None => {
                    found = Some(t);
                },
            }
        } else {
            assert(!holds_ordinal(p, pack_entry_ordinal, trees, t as int));
        }
        t = t + 1;
    }
    match found {
        Some(f) => {
            proof {
                assert forall|u: int| #[trigger] holds_ordinal(p, pack_entry_ordinal, trees, u) implies u
                    == f by {
                    assert(u < t);
                }
                assert(sole_holder(p, pack_entry_ordinal, trees, f as int));
                let c = choose|c: int| #[trigger] sole_holder(p, pack_entry_ordinal, trees, c);
                assert(holds_ordinal(p, pack_entry_ordinal, trees, c));
                assert(c == f);
            }
            Ok(f)
        },
        None => {
            proof {
                assert forall|w: int| !#[trigger] sole_holder(p, pack_entry_ordinal, trees, w) by {
                    if sole_holder(p, pack_entry_ordinal, trees, w) {
                        assert(holds_ordinal(p, pack_entry_ordinal, trees, w));
                    }
                }
            }
            let mut v = chars_of("tree pack has no tree at physical ordinal ");
            push_decimal(&mut v, pack_entry_ordinal as u64);
            Err(string_from_chars(&v))
        },
    }
}

/// The tree id retained for a source root `(tree pack, ordinal)`: the first
/// entry with that key.
pub open spec fn find_tree_id(ids: Seq<((u32, u32), String)>, key: (u32, u32)) -> Option<Seq<char>>
    decreases ids.len(),
{
    if ids.len() == 0 {
        None
    } else if ids[0].0 == key {
        Some(ids[0].1@)
    } else {
        find_tree_id(ids.drop_first(), key)
    }
}

/// The repacked locator of a lower-cased tree id: the first entry with
/// that id.
pub open spec fn find_locator(locs: Seq<(String, RepackedTreeLocator)>, key: Seq<char>) -> Option<
    RepackedTreeLocator,
>
    decreases locs.len(),
{
    if locs.len() == 0 {
        None
    } else if locs[0].0@ == key {
        Some(locs[0].1)
    } else {
        find_locator(locs.drop_first(), key)
    }
}

fn lookup_tree_id(ids: &[((u32, u32), String)], key: (u32, u32)) -> (r: Option<String>)
    ensures
        match r {
            Some(t) => find_tree_id(ids@, key) == Some(t@),
            None => find_tree_id(ids@, key) is None,
        },
{
    let mut i: usize = 0;
    assert(ids@.subrange(0, ids@.len() as int) =~= ids@);
    while i < ids.len()
        invariant
            i <= ids@.len(),
            find_tree_id(ids@, key) == find_tree_id(ids@.subrange(i as int, ids@.len() as int), key),
        decreases ids@.len() - i,
    {
        let ghost rest = ids@.subrange(i as int, ids@.len() as int);
        assert(rest[0] == ids@[i as int]);
        assert(rest.drop_first() =~= ids@.subrange(i + 1, ids@.len() as int));
        if ids[i].0.0 == key.0 && ids[i].0.1 == key.1 {
            return Some(ids[i].1.clone());
        }
        i = i + 1;
    }
    None
}

fn lookup_locator(locs: &[(String, RepackedTreeLocator)], key: &Vec<char>) -> (r: Option<
    RepackedTreeLocator,
>)
    ensures
        r == find_locator(locs@, key@),
{
    let mut i: usize = 0;
    assert(locs@.subrange(0, locs@.len() as int) =~= locs@);
    while i < locs.len()
        invariant
            i <= locs@.len(),
            find_locator(locs@, key@) == find_locator(locs@.subrange(i as int, locs@.len() as int), key@),
        decreases locs@.len() - i,
    {
        let ghost rest = locs@.subrange(i as int, locs@.len() as int);
        assert(rest[0] == locs@[i as int]);
        assert(rest.drop_first() =~= locs@.subrange(i + 1, locs@.len() as int));
        if crate::text::chars_eq_str(key, locs[i].0.as_str()) {
            return Some(locs[i].1);
        }
        i = i + 1;
    }
    None
}

/// A snapshot with its root moved to the repacked tree packs: a tombstone
/// loses its root, a live snapshot with a root points at the repacked
/// place of the tree that its source root named, and a live snapshot
/// without a root keeps none. `None` when a live root was not retained or
/// has no repacked place.
pub open spec fn spec_rewrite_root(
    s: BinarySnapshotRecord,
    ids: Seq<((u32, u32), String)>,
    locs: Seq<(String, RepackedTreeLocator)>,
) -> Option<BinarySnapshotRecord> {
    if s.spec_is_tombstone() {
        Some(
            BinarySnapshotRecord {
                root_tree_pack_index_plus1: 0,
                root_entry_ordinal: 0,
                snapshot_meta: s.snapshot_meta & 0b1101_1111,
                ..s
            },
        )
    } else {
        match plus_one_index(s.root_tree_pack_index_plus1) {
            Some(p) => match find_tree_id(ids, (p, s.root_entry_ordinal)) {
                None => None,
                Some(tree_id) => match find_locator(locs, ascii_lower_seq(tree_id)) {
                    None => None,
                    Some(loc) => if loc.tree_pack_index < u32::MAX {
                        Some(
                            BinarySnapshotRecord {
                                root_tree_pack_index_plus1: (loc.tree_pack_index + 1) as u32,
                                root_entry_ordinal: loc.pack_entry_ordinal,
                                snapshot_meta: s.snapshot_meta | 0b0010_0000,
                                ..s
                            },
                        )
                    } else {
                        None
                    },
                },
            },
            None => Some(
                BinarySnapshotRecord {
                    root_entry_ordinal: 0,
                    snapshot_meta: s.snapshot_meta & 0b1101_1111,
                    ..s
                },
            ),
        }
    }
}

/// The encoded rewritten snapshots of the first `n` snapshots.
pub open spec fn rewritten_snapshots(
    snaps: Seq<BinarySnapshotRecord>,
    ids: Seq<((u32, u32), String)>,
    locs: Seq<(String, RepackedTreeLocator)>,
    n: nat,
) -> Option<Seq<u8>>
    decreases n,
{
    if n == 0 {
        Some(Seq::empty())
    } else {
        match rewritten_snapshots(snaps, ids, locs, (n - 1) as nat) {
            None => None,
            Some(b) => match spec_rewrite_root(snaps[n - 1], ids, locs) {
                None => None,
                Some(r) => Some(b + snapshot_record_bytes(r)),
            },
        }
    }
}

proof fn lemma_rewritten_none(
    snaps: Seq<BinarySnapshotRecord>,
    ids: Seq<((u32, u32), String)>,
    locs: Seq<(String, RepackedTreeLocator)>,
    a: nat,
    b: nat,
)
    requires
        a <= b,
        rewritten_snapshots(snaps, ids, locs, a) is None,
    ensures
        rewritten_snapshots(snaps, ids, locs, b) is None,
    decreases b - a,
{
    if a < b {
        lemma_rewritten_none(snaps, ids, locs, a, (b - 1) as nat);
    }
}

proof fn lemma_rewrite_valid(
    s: BinarySnapshotRecord,
    ids: Seq<((u32, u32), String)>,
    locs: Seq<(String, RepackedTreeLocator)>,
)
    requires
        snapshot_record_valid(s),
        spec_rewrite_root(s, ids, locs) is Some,
    ensures
        snapshot_record_valid(spec_rewrite_root(s, ids, locs)->0),
{
    let m = s.snapshot_meta;
    assert((m & 0b1101_1111) & 0b0100_0000 == m & 0b0100_0000) by (bit_vector);
    assert((m & 0b1101_1111) & 0b0001_0000 == m & 0b0001_0000) by (bit_vector);
    assert((m & 0b1101_1111) & 0b0010_0000 == 0) by (bit_vector);
    assert((m | 0b0010_0000) & 0b0100_0000 == m & 0b0100_0000) by (bit_vector);
    assert((m | 0b0010_0000) & 0b0001_0000 == m & 0b0001_0000) by (bit_vector);
    assert((m | 0b0010_0000) & 0b0010_0000 != 0) by (bit_vector);
}

/// Moves the roots of every snapshot of a snapshot table to the repacked
/// tree packs. `source_tree_ids` maps a source root (tree pack, ordinal) to
/// the id of the tree there, and `repacked_tree_locators` maps a lower-cased
/// tree id to its repacked place. Succeeds exactly when the table has layout
/// 1 and whole valid records and every live root was retained and repacked;
/// the result keeps the header and holds each rewritten record in order.
pub fn rewrite_repacked_snapshot_roots(
    snapshot_file: &[u8],
    source_tree_ids: &[((u32, u32), String)],
    repacked_tree_locators: &[(String, RepackedTreeLocator)],
) -> (r: Result<Vec<u8>, String>)
    ensures
        r is Ok <==> {
            let n = ((snapshot_file@.len() - 4) / 88) as nat;
            &&& layout_one(snapshot_file@)
            &&& (snapshot_file@.len() - 4) % 88 == 0
            &&& snapshot_table_decodes(Some(snapshot_file@), n)
            &&& rewritten_snapshots(
                snapshot_table(Some(snapshot_file@), n),
                source_tree_ids@,
                repacked_tree_locators@,
                n,
            ) is Some
        },
        r matches Ok(out) ==> {
            let n = ((snapshot_file@.len() - 4) / 88) as nat;
            out@ == snapshot_file@.subrange(0, 4) + rewritten_snapshots(
                snapshot_table(Some(snapshot_file@), n),
                source_tree_ids@,
                repacked_tree_locators@,
                n,
            )->0
        },
{
    let ghost f = snapshot_file@;
    let ghost ids = source_tree_ids@;
    let ghost locs = repacked_tree_locators@;
    if snapshot_file.len() < 4 || u32_from_le_bytes(vstd::slice::slice_subrange(snapshot_file, 0, 4))
        != 1 || (snapshot_file.len() - 4) % 88 != 0 {
        return Err(owned("captured Snapshot authority is invalid before root remap"));
    }
    let count = (snapshot_file.len() - 4) / 88;
    let ghost n = count as nat;
    let ghost snaps = snapshot_table(Some(f), n);
    assert(f.len() == 4 + 88 * n) by (nonlinear_arith)
        requires
            (f.len() - 4) % 88 == 0,
            n == (f.len() - 4) / 88,
            f.len() >= 4,
    ;
    let mut out: Vec<u8> = Vec::new();
    push_slice(&mut out, vstd::slice::slice_subrange(snapshot_file, 0, 4));
    let mut i: usize = 0;
    while i < count
        invariant
            f == snapshot_file@,
            ids == source_tree_ids@,
            locs == repacked_tree_locators@,
            n == count,
            snaps == snapshot_table(Some(f), n),
            f.len() == 4 + 88 * n,
            i <= count,
            forall|k: int| 0 <= k < i ==> is_snapshot_record(#[trigger] raw_record(Some(f), 88, k)),
            rewritten_snapshots(snaps, ids, locs, i as nat) is Some,
            out@ == f.subrange(0, 4) + rewritten_snapshots(snaps, ids, locs, i as nat)->0,
        decreases count - i,
    {
        assert(4 + (i + 1) * 88 <= f.len()) by (nonlinear_arith)
            requires
                i < n,
                f.len() == 4 + 88 * n,
        ;
        assert(i * 88 + 88 == (i + 1) * 88) by (nonlinear_arith);
        let total = snapshot_file.len();
        assert(4 + i * 88 + 88 <= total);
        let start = 4 + i * 88;
        let raw = vstd::slice::slice_subrange(snapshot_file, start, start + 88);
        assert(raw@ == raw_record(Some(f), 88, i as int));
        let mut snapshot = match BinarySnapshotCodec::<1>::decode_record(raw) {
            Ok(rec) => rec,
            Err(e) => {
                proof {
                    if snapshot_table_decodes(Some(f), n) {
                        assert(is_snapshot_record(raw_record(Some(f), 88, i as int)));
                    }
                }
                let mut v = chars_of("cannot decode Snapshot ");
                push_decimal(&mut v, i as u64);
                push_str(&mut v, ": ");
                push_str(&mut v, e.message.as_str());
                return Err(string_from_chars(&v));
            },
        };
        proof {
            let c = choose|r: BinarySnapshotRecord|
                snapshot_record_bytes(r) == raw_record(Some(f), 88, i as int) && snapshot_record_valid(r);
            lemma_snapshot_record_bytes_injective(c, snapshot);
            assert(snaps[i as int] == snapshot);
            assert(is_snapshot_record(raw_record(Some(f), 88, i as int)));
        }
        let ghost before = snapshot;
        assert(!0b0010_0000u8 == 0b1101_1111u8) by (bit_vector);
        if snapshot.is_tombstone() {
            snapshot.root_tree_pack_index_plus1 = 0;
            snapshot.root_entry_ordinal = 0;
            snapshot.snapshot_meta = snapshot.snapshot_meta & !BinarySnapshotRecord::META_HAS_ROOT_LOCATOR;
        } else {
            match snapshot.root_tree_pack_index() {
                Some(source_pack_index) => {
                    let tree_id = match lookup_tree_id(
                        source_tree_ids,
                        (source_pack_index, snapshot.root_entry_ordinal),
                    ) {
                        Some(t) => t,
                        None => {
                            proof {
                                assert(rewritten_snapshots(snaps, ids, locs, (i + 1) as nat) is None);
                                lemma_rewritten_none(snaps, ids, locs, (i + 1) as nat, n);
                            }
                            let mut v = chars_of("live Snapshot ");
                            push_decimal(&mut v, i as u64);
                            push_str(&mut v, " root (");
                            push_decimal(&mut v, source_pack_index as u64);
                            push_str(&mut v, ", ");
                            push_decimal(&mut v, snapshot.root_entry_ordinal as u64);
                            push_str(&mut v, ") was not retained");
                            return Err(string_from_chars(&v));
                        },
                    };
                    let key = to_ascii_lowercase(&chars_of(tree_id.as_str()));
                    let locator = match lookup_locator(repacked_tree_locators, &key) {
                        Some(l) => l,
                        None => {
                            proof {
                                assert(rewritten_snapshots(snaps, ids, locs, (i + 1) as nat) is None);
                                lemma_rewritten_none(snaps, ids, locs, (i + 1) as nat, n);
                            }
                            let mut v = chars_of("live Snapshot ");
                            push_decimal(&mut v, i as u64);
                            push_str(&mut v, " root tree ");
                            push_str(&mut v, tree_id.as_str());
                            push_str(&mut v, " has no repacked locator");
                            return Err(string_from_chars(&v));
                        },
                    };
                    let plus1 = match locator.tree_pack_index.checked_add(1) {
                        Some(p) => p,
                        None => {
                            proof {
                                assert(rewritten_snapshots(snaps, ids, locs, (i + 1) as nat) is None);
                                lemma_rewritten_none(snaps, ids, locs, (i + 1) as nat, n);
                            }
                            return Err(owned("repacked tree-pack index plus-one overflows"));
                        },
                    };
                    snapshot.root_tree_pack_index_plus1 = plus1;
                    snapshot.root_entry_ordinal = locator.pack_entry_ordinal;
                    snapshot.snapshot_meta = snapshot.snapshot_meta | BinarySnapshotRecord::META_HAS_ROOT_LOCATOR;
                },
                None => {
                    snapshot.root_entry_ordinal = 0;
                    snapshot.snapshot_meta = snapshot.snapshot_meta & !BinarySnapshotRecord::META_HAS_ROOT_LOCATOR;
                },
            }
        }
        assert(spec_rewrite_root(before, ids, locs) == Some(snapshot));
        proof {
            lemma_rewrite_valid(before, ids, locs);
        }
        let encoded = match BinarySnapshotCodec::<1>::encode_record(&snapshot) {
            Ok(e) => e,
            Err(e) => {
                assert(false);
                return Err(e.message);
            },
        };
        push_slice(&mut out, encoded.as_slice());
        proof {
            assert(out@ =~= f.subrange(0, 4) + rewritten_snapshots(snaps, ids, locs, (i + 1) as nat)->0);
        }
        i = i + 1;
    }
    Ok(out)
}

/// The snapshot records of a source snapshot table, for reachability
/// planning; an absent table holds none. Succeeds exactly when the table has
/// layout 1 and whole valid records.
pub fn read_canonical_source_snapshot_records(snapshot_file: Option<&[u8]>) -> (r: Result<
    Vec<BinarySnapshotRecord>,
    String,
>)
    ensures
        match snapshot_file {
            None => r matches Ok(v) && v@.len() == 0,
            Some(f) => {
                let n = ((f@.len() - 4) / 88) as nat;
                &&& r is Ok <==> layout_one(f@) && (f@.len() - 4) % 88 == 0 && snapshot_table_decodes(
                    Some(f@),
                    n,
                )
                &&& r matches Ok(v) ==> v@ == snapshot_table(Some(f@), n)
            },
        },
{
    let bytes = match snapshot_file {
        None => {
            return Ok(Vec::new());
        },
        Some(b) => b,
    };
    let ghost f = bytes@;
    if bytes.len() < 4 || u32_from_le_bytes(vstd::slice::slice_subrange(bytes, 0, 4)) != 1 {
        return Err(owned("Snapshot reachability planning requires canonical layout-1 snapshot.bin"));
    }
    if (bytes.len() - 4) % 88 != 0 {
        return Err(owned("Snapshot reachability planning found misaligned snapshot.bin"));
    }
    let count = (bytes.len() - 4) / 88;
    let ghost n = count as nat;
    assert(f.len() == 4 + 88 * n) by (nonlinear_arith)
        requires
            (f.len() - 4) % 88 == 0,
            n == (f.len() - 4) / 88,
            f.len() >= 4,
    ;
    let mut out: Vec<BinarySnapshotRecord> = Vec::new();
    let mut i: usize = 0;
    while i < count
        invariant
            snapshot_file == Some(bytes),
            f == bytes@,
            n == count,
            f.len() == 4 + 88 * n,
            i <= count,
            out@.len() == i,
            forall|k: int| 0 <= k < i ==> out@[k] == #[trigger] snapshot_table(Some(f), n)[k],
            forall|k: int| 0 <= k < i ==> is_snapshot_record(#[trigger] raw_record(Some(f), 88, k)),
        decreases count - i,
    {
        assert(4 + (i + 1) * 88 <= f.len()) by (nonlinear_arith)
            requires
                i < n,
                f.len() == 4 + 88 * n,
        ;
        assert(i * 88 + 88 == (i + 1) * 88) by (nonlinear_arith);
        let total = bytes.len();
        assert(4 + i * 88 + 88 <= total);
        let start = 4 + i * 88;
        let raw = vstd::slice::slice_subrange(bytes, start, start + 88);
        assert(raw@ == raw_record(Some(f), 88, i as int));
        let rec = match BinarySnapshotCodec::<1>::decode_record(raw) {
            Ok(rec) => rec,
            Err(e) => {
                proof {
                    if snapshot_table_decodes(Some(f), n) {
                        assert(is_snapshot_record(raw_record(Some(f), 88, i as int)));
                    }
                }
                let mut v = chars_of("cannot decode canonical Snapshot ");
                push_decimal(&mut v, i as u64);
                push_str(&mut v, " while planning capture: ");
                push_str(&mut v, e.message.as_str());
                return Err(string_from_chars(&v));
            },
        };
        proof {
            let c = choose|r: BinarySnapshotRecord|
                snapshot_record_bytes(r) == raw_record(Some(f), 88, i as int) && snapshot_record_valid(r);
            lemma_snapshot_record_bytes_injective(c, rec);
            assert(is_snapshot_record(raw_record(Some(f), 88, i as int)));
        }
        out.push(rec);
        i = i + 1;
    }
    assert(out@ =~= snapshot_table(Some(f), n));
    Ok(out)
}

/// Number of records of a source table named `name` of `byte_size` bytes
/// (an absent table holds none): the table must have a fixed-record schema,
/// hold whole records of it, be exactly that many `record_size`-byte
/// records after the header, and have at most `u32::MAX` of them.
pub fn source_record_count(name: &str, byte_size: Option<u64>, record_size: u32) -> (r: Result<
    u32,
    String,
>)
    ensures
        match byte_size {
            None => r == Ok::<u32, String>(0),
            Some(b) => match crate::generation::manifest::fixed_record_size(name@) {
                None => r is Err,
                Some(size) => {
                    &&& r is Ok <==> b >= 4 && (b - 4) % (size as int) == 0 && ((b - 4) / (size as int))
                        * record_size + 4 == b && (b - 4) / (size as int) <= u32::MAX
                    &&& r matches Ok(n) ==> n == (b - 4) / (size as int)
                },
            },
        },
{
    let b = match byte_size {
        None => {
            return Ok(0);
        },
        Some(b) => b,
    };
    let path = crate::text::cat2("local/", name);
    proof {
        assert(path@.subrange(0, 6) =~= "local/"@) by {
            reveal_strlit("local/");
        }
        assert(path@.subrange(6, path@.len() as int) =~= name@) by {
            reveal_strlit("local/");
        }
        reveal_strlit("local/");
    }
    let count = match crate::generation::manifest::fixed_record_count(path.as_str(), b)? {
        Some(count) => count,
        None => {
            let mut v = chars_of(name);
            push_str(&mut v, " has no fixed-record schema");
            return Err(string_from_chars(&v));
        },
    };
    let expected_body = match count.checked_mul(record_size as u64) {
        Some(body) => body,
        None => {
            let mut v = chars_of(name);
            push_str(&mut v, " byte length overflows u64");
            return Err(string_from_chars(&v));
        },
    };
    if expected_body > u64::MAX - 4 || expected_body + 4 != b {
        let mut v = chars_of(name);
        push_str(&mut v, " has an inconsistent fixed-record byte length");
        return Err(string_from_chars(&v));
    }
    if count > u32::MAX as u64 {
        let mut v = chars_of(name);
        push_str(&mut v, " record count exceeds u32::MAX");
        return Err(string_from_chars(&v));
    }
    Ok(count as u32)
}

} // verus!
