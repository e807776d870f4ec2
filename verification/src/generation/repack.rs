//! The choice of one source blob for each blob identity that an object
//! repack retains: every retained blob must be available and selected by a
//! retained, live member that points back at it; blobs that share an
//! identity must agree on their digest and size, and the latest record of
//! an identity is its source.

use vstd::prelude::*;

use crate::ids::{blob_id_from_sha256, spec_blob_id};
use crate::json::{field_index, lemma_field_index, lemma_field_index_of_first, spec_fold};
use crate::schema::records::{plus_one_index, BinaryBlobRecord, BinaryObjectPackMemberRecord};
use crate::text::{
    ascii_lower_seq, chars_eq, chars_of, push_decimal, push_str, spec_decimal, string_from_chars,
    to_ascii_lowercase,
};

verus! {

/// The source chosen for one blob identity.
#[derive(Clone, Debug, PartialEq, Eq)]
pub struct CanonicalBlobSource {
    /// The blob id in lower case.
    pub blob_key: String,
    pub source_blob_index: u32,
    pub source_pack_index: u32,
    pub member_index: u32,
}

/// A source as its key and its blob, pack and member indexes.
pub open spec fn source_view(s: CanonicalBlobSource) -> (Seq<char>, (u32, u32, u32)) {
    (s.blob_key@, (s.source_blob_index, s.source_pack_index, s.member_index))
}

pub open spec fn sources_view(v: Seq<CanonicalBlobSource>) -> Seq<(Seq<char>, (u32, u32, u32))> {
    Seq::new(v.len(), |i: int| source_view(v[i]))
}

/// The message of a refused retained blob.
pub open spec fn retained_text(b: u32, tail: Seq<char>) -> Seq<char> {
    "retained blob "@ + spec_decimal(b as nat) + tail
}

/// One retained blob folded into the sources chosen so far.
pub open spec fn canonical_step(
    blobs: Seq<BinaryBlobRecord>,
    members: Seq<BinaryObjectPackMemberRecord>,
    retained_members: Seq<u32>,
) -> spec_fn(Seq<(Seq<char>, (u32, u32, u32))>, u32) -> Result<
    Seq<(Seq<char>, (u32, u32, u32))>,
    Seq<char>,
> {
    |acc: Seq<(Seq<char>, (u32, u32, u32))>, b: u32|
        {
            let blob = blobs[b as int];
            if blob.spec_is_tombstone() || blob.spec_is_pruned() {
                Err(retained_text(b, " is unavailable during repack"@))
            } else {
                match plus_one_index(blob.pack_member_index_plus1) {
                    None => Err(retained_text(b, " has no object-pack member"@)),
                    Some(m) => if !retained_members.contains(m) {
                        Err(
                            retained_text(b, " points to unretained member "@) + spec_decimal(
                                m as nat,
                            ),
                        )
                    } else if members[m as int].spec_is_tombstone() || members[m as int].blob_index
                        != b {
                        Err(
                            retained_text(b, " and member "@) + spec_decimal(m as nat)
                                + " are not live backreferences"@,
                        )
                    } else {
                        let key = ascii_lower_seq(spec_blob_id(blob.sha256@));
                        let source = (key, (b, members[m as int].pack_index, m));
                        let j = field_index(acc, key);
                        if j < 0 {
                            Ok(acc.push(source))
                        } else {
                            let existing = acc[j].1.0;
                            let earlier = blobs[existing as int];
                            if earlier.sha256@ != blob.sha256@ || earlier.size_bytes != blob.size_bytes {
                                Err(
                                    "retained blob identity "@ + spec_blob_id(blob.sha256@)
                                        + " has conflicting source records "@ + spec_decimal(
                                        existing as nat,
                                    ) + " and "@ + spec_decimal(b as nat),
                                )
                            } else if existing > b {
                                Ok(acc)
                            } else {
                                Ok(acc.update(j, source))
                            }
                        }
                    },
                }
            }
        }
}

/// Every source chosen so far names a blob of the table.
pub open spec fn sources_in_table(acc: Seq<(Seq<char>, (u32, u32, u32))>, blob_count: nat) -> bool {
    forall|j: int| 0 <= j < acc.len() ==> (#[trigger] acc[j]).1.0 < blob_count
}

fn contains_index(v: &[u32], x: u32) -> (r: bool)
    ensures
        r == v@.contains(x),
{
    let mut i: usize = 0;
    while i < v.len()
        invariant
            i <= v@.len(),
            forall|k: int| 0 <= k < i ==> v@[k] != x,
        decreases v@.len() - i,
    {
        if v[i] == x {
            assert(v@[i as int] == x);
            return true;
        }
        i = i + 1;
    }
    false
}

fn position_of(sources: &Vec<CanonicalBlobSource>, key: &Vec<char>) -> (r: Option<usize>)
    ensures
        match r {
            Some(j) => field_index(sources_view(sources@), key@) == j,
            None => field_index(sources_view(sources@), key@) < 0,
        },
{
    let ghost sv = sources_view(sources@);
    proof {
        lemma_field_index(sv, key@);
    }
    let mut i: usize = 0;
    while i < sources.len()
        invariant
            sv == sources_view(sources@),
            i <= sources@.len(),
            forall|j: int| 0 <= j < i ==> sv[j].0 != key@,
        decreases sources@.len() - i,
    {
        let k = chars_of(sources[i].blob_key.as_str());
        if chars_eq(&k, key) {
            proof {
                lemma_field_index_of_first(sv, key@, i as int);
            }
            return Some(i);
        }
        assert(sv[i as int].0 == sources@[i as int].blob_key@);
        i = i + 1;
    }
    proof {
        if field_index(sv, key@) >= 0 {
            assert(sv[field_index(sv, key@)].0 == key@);
        }
    }
    None
}

fn retained_message(b: u32, tail: &str) -> (s: String)
    ensures
        s@ == retained_text(b, tail@),
{
    let mut v = chars_of("retained blob ");
    push_decimal(&mut v, b as u64);
    push_str(&mut v, tail);
    string_from_chars(&v)
}

/// Chooses the source of each blob identity among the retained blobs, in
/// the order given: the result lists each identity once, where it first
/// appears, with the latest retained record of that identity. Fails at the
/// first retained blob that is unavailable, has no retained live member
/// pointing back at it, or disagrees in digest or size with an earlier
/// blob of its identity.
pub fn select_canonical_blob_sources(
    blobs: &[BinaryBlobRecord],
    members: &[BinaryObjectPackMemberRecord],
    retained_blob_indices: &[u32],
    retained_member_indices: &[u32],
) -> (r: Result<Vec<CanonicalBlobSource>, String>)
    requires
        forall|k: int|
            0 <= k < retained_blob_indices@.len() ==> (#[trigger] retained_blob_indices@[k]) < blobs@.len(),
        forall|k: int|
            0 <= k < retained_member_indices@.len() ==> (#[trigger] retained_member_indices@[k])
                < members@.len(),
    ensures
        match r {
            Ok(v) => spec_fold(
                retained_blob_indices@,
                Seq::empty(),
                canonical_step(blobs@, members@, retained_member_indices@),
            ) == Ok::<Seq<(Seq<char>, (u32, u32, u32))>, Seq<char>>(sources_view(v@)),
            Err(m) => spec_fold(
                retained_blob_indices@,
                Seq::empty(),
                canonical_step(blobs@, members@, retained_member_indices@),
            ) == Err::<Seq<(Seq<char>, (u32, u32, u32))>, Seq<char>>(m@),
        },
{
    let ghost idx = retained_blob_indices@;
    let ghost step = canonical_step(blobs@, members@, retained_member_indices@);
    let mut sources: Vec<CanonicalBlobSource> = Vec::new();
    let mut i: usize = 0;
    assert(idx.subrange(0, 0) =~= Seq::<u32>::empty());
    assert(sources_view(sources@) =~= Seq::empty());
    while i < retained_blob_indices.len()
        invariant
            idx == retained_blob_indices@,
            step == canonical_step(blobs@, members@, retained_member_indices@),
            forall|k: int| 0 <= k < idx.len() ==> (#[trigger] idx[k]) < blobs@.len(),
            forall|k: int|
                0 <= k < retained_member_indices@.len() ==> (#[trigger] retained_member_indices@[k])
                    < members@.len(),
            i <= idx.len(),
            sources_in_table(sources_view(sources@), blobs@.len()),
            spec_fold(idx.subrange(0, i as int), Seq::empty(), step) == Ok::<
                Seq<(Seq<char>, (u32, u32, u32))>,
                Seq<char>,
            >(sources_view(sources@)),
        decreases idx.len() - i,
    {
        let ghost acc = sources_view(sources@);
        proof {
            crate::json::lemma_fold_step(idx, Seq::empty(), step, i as int);
        }
        let b = retained_blob_indices[i];
        assert(b == idx[i as int] && b < blobs@.len());
        let blob = &blobs[b as usize];
        if blob.is_tombstone() || blob.is_pruned() {
            let m = retained_message(b, " is unavailable during repack");
            proof {
                crate::json::lemma_fold_error_extends(idx, Seq::empty(), step, i + 1, m@);
            }
            return Err(m);
        }
        let member_index = match blob.pack_member_index() {
            Some(mi) => mi,
            None => {
                let m = retained_message(b, " has no object-pack member");
                proof {
                    crate::json::lemma_fold_error_extends(idx, Seq::empty(), step, i + 1, m@);
                }
                return Err(m);
            },
        };
        if !contains_index(retained_member_indices, member_index) {
            let mut v = chars_of("retained blob ");
            push_decimal(&mut v, b as u64);
            push_str(&mut v, " points to unretained member ");
            push_decimal(&mut v, member_index as u64);
            let m = string_from_chars(&v);
            proof {
                crate::json::lemma_fold_error_extends(idx, Seq::empty(), step, i + 1, m@);
            }
            return Err(m);
        }
        proof {
            let k = choose|k: int|
                0 <= k < retained_member_indices@.len() && retained_member_indices@[k] == member_index;
            assert(retained_member_indices@[k] < members@.len());
        }
        let member = &members[member_index as usize];
        if member.is_tombstone() || member.blob_index != b {
            let mut v = chars_of("retained blob ");
            push_decimal(&mut v, b as u64);
            push_str(&mut v, " and member ");
            push_decimal(&mut v, member_index as u64);
            push_str(&mut v, " are not live backreferences");
            let m = string_from_chars(&v);
            proof {
                crate::json::lemma_fold_error_extends(idx, Seq::empty(), step, i + 1, m@);
            }
            return Err(m);
        }
        let blob_id = blob_id_from_sha256(&blob.sha256);
        let id_chars = chars_of(blob_id.as_str());
        let key = to_ascii_lowercase(&id_chars);
        let source = CanonicalBlobSource {
            blob_key: string_from_chars(&key),
            source_blob_index: b,
            source_pack_index: member.pack_index,
            member_index,
        };
        proof {
            lemma_field_index(acc, key@);
            assert(key@ == ascii_lower_seq(spec_blob_id(blobs@[b as int].sha256@)));
        }
        match position_of(&sources, &key) {
            None => {
                sources.push(source);
                assert(sources_view(sources@) =~= acc.push(source_view(source)));
            },
            Some(j) => {
                assert(acc.len() == sources@.len());
                let existing = sources[j].source_blob_index;
                assert(acc[j as int] == source_view(sources@[j as int]));
                assert(acc[j as int].1.0 == existing);
                assert(existing < blobs@.len());
                let earlier = &blobs[existing as usize];
                if !crate::generation::indexes::bytes_equal(earlier.sha256.as_slice(), blob.sha256.as_slice())
                    || earlier.size_bytes != blob.size_bytes {
                    let mut v = chars_of("retained blob identity ");
                    push_str(&mut v, blob_id.as_str());
                    push_str(&mut v, " has conflicting source records ");
                    push_decimal(&mut v, existing as u64);
                    push_str(&mut v, " and ");
                    push_decimal(&mut v, b as u64);
                    let m = string_from_chars(&v);
                    proof {
                        crate::json::lemma_fold_error_extends(idx, Seq::empty(), step, i + 1, m@);
                    }
                    return Err(m);
                }
                if existing <= b {
                    sources.set(j, source);
                    assert(sources_view(sources@) =~= acc.update(j as int, source_view(source)));
                }
            },
        }
        i = i + 1;
    }
    assert(idx.subrange(0, idx.len() as int) =~= idx);
    Ok(sources)
}

} // verus!
