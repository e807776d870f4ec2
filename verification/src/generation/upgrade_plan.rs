//! What a u64-second upgrade does with each source file, and the check that
//! every identity index of the source is rebuilt from a converted table.

use vstd::prelude::*;

use crate::generation::activation::text_lt;
use crate::generation::indexes::{is_content_identity_index, plan_kind_row, plan_kinds};
use crate::generation::upgrade::{plan_row, plan_rows, time_width_plan, TimeWidthPlan};
use crate::text::{chars_of, push_str, str_eq, string_from_chars};

verus! {

/// What an upgrade does with one source file.
#[derive(Clone, Debug)]
pub enum UpgradeFileAction {
    /// Widen its records by this plan.
    Convert(TimeWidthPlan),
    /// Leave it for now: identity indexes are rebuilt from the converted
    /// tables.
    RebuildIndex,
    /// Copy it byte for byte.
    Copy,
}

/// `name` is the file name of an identity index.
pub open spec fn is_identity_index_name(name: Seq<char>) -> bool {
    exists|i: int| 0 <= i < plan_kinds().len() && (#[trigger] plan_kind_row(plan_kinds()[i])).1 == name
}

/// `name` is a table whose records carry timestamps.
pub open spec fn has_width_plan(name: Seq<char>) -> bool {
    exists|i: int| 0 <= i < plan_rows().len() && (#[trigger] plan_rows()[i]).0 == name
}

/// The action for the source file `name`: identity indexes are rebuilt,
/// tables with timestamps are widened by their plan, and everything else is
/// copied.
pub fn upgrade_file_action(name: &str) -> (r: UpgradeFileAction)
    ensures
        r is RebuildIndex <==> is_identity_index_name(name@),
        r is Copy <==> !is_identity_index_name(name@) && !has_width_plan(name@),
        r matches UpgradeFileAction::Convert(p) ==> !is_identity_index_name(name@) && p.name@ == name@
            && exists|i: int| 0 <= i < plan_rows().len() && plan_row(p) == #[trigger] plan_rows()[i],
{
    if is_content_identity_index(name) {
        return UpgradeFileAction::RebuildIndex;
    }
    match time_width_plan(name) {
        Some(plan) => UpgradeFileAction::Convert(plan),
        None => UpgradeFileAction::Copy,
    }
}

// ----- orphaned identity indexes ----------------------------------------------------

/// `x` added to a list in text order without repeats.
pub open spec fn insert_name(sorted: Seq<Seq<char>>, x: Seq<char>) -> Seq<Seq<char>>
    decreases sorted.len(),
{
    if sorted.len() == 0 {
        seq![x]
    } else if sorted[0] == x {
        sorted
    } else if text_lt(x, sorted[0]) {
        seq![x] + sorted
    } else {
        seq![sorted[0]] + insert_name(sorted.drop_first(), x)
    }
}

/// The names in text order without repeats, as a set of names keeps them.
pub open spec fn name_set(names: Seq<Seq<char>>) -> Seq<Seq<char>>
    decreases names.len(),
{
    if names.len() == 0 {
        Seq::empty()
    } else {
        insert_name(name_set(names.drop_last()), names.last())
    }
}

/// The source index names that no rebuilt index has, in the order of a set.
pub open spec fn orphaned_names(source: Seq<Seq<char>>, rebuilt: Seq<Seq<char>>) -> Seq<Seq<char>> {
    name_set(source.filter(|n: Seq<char>| !rebuilt.contains(n)))
}

/// Names joined by `, `.
pub open spec fn joined_names(names: Seq<Seq<char>>) -> Seq<char>
    decreases names.len(),
{
    if names.len() == 0 {
        Seq::empty()
    } else if names.len() == 1 {
        names[0]
    } else {
        joined_names(names.drop_last()) + ", "@ + names.last()
    }
}

pub open spec fn names_of(v: Seq<String>) -> Seq<Seq<char>> {
    Seq::new(v.len(), |i: int| v[i]@)
}

fn contains_name(names: &[String], name: &str) -> (r: bool)
    ensures
        r == names_of(names@).contains(name@),
{
    let mut k: usize = 0;
    while k < names.len()
        invariant
            k <= names@.len(),
            forall|j: int| 0 <= j < k ==> names_of(names@)[j] != name@,
        decreases names@.len() - k,
    {
        if str_eq(names[k].as_str(), name) {
            assert(names_of(names@)[k as int] == name@);
            return true;
        }
        k = k + 1;
    }
    false
}

proof fn lemma_insert_name_at(sorted: Seq<Seq<char>>, x: Seq<char>, j: int)
    requires
        0 <= j <= sorted.len(),
        forall|k: int| 0 <= k < j ==> #[trigger] sorted[k] != x && !text_lt(x, sorted[k]),
        j < sorted.len() ==> sorted[j] == x || text_lt(x, sorted[j]),
    ensures
        insert_name(sorted, x) == if j < sorted.len() && sorted[j] == x {
            sorted
        } else {
            sorted.insert(j, x)
        },
    decreases sorted.len(),
{
    if sorted.len() == 0 {
        assert(sorted.insert(j, x) =~= seq![x]);
    } else if j == 0 {
        if sorted[0] != x {
            assert(sorted.insert(0, x) =~= seq![x] + sorted);
        }
    } else {
        let rest = sorted.drop_first();
        assert forall|k: int| 0 <= k < j - 1 implies #[trigger] rest[k] != x && !text_lt(x, rest[k]) by {
            assert(rest[k] == sorted[k + 1]);
        }
        if j - 1 < rest.len() {
            assert(rest[j - 1] == sorted[j]);
        }
        lemma_insert_name_at(rest, x, j - 1);
        if !(j < sorted.len() && sorted[j] == x) {
            assert(seq![sorted[0]] + rest.insert(j - 1, x) =~= sorted.insert(j, x));
        } else {
            assert(seq![sorted[0]] + rest =~= sorted);
        }
    }
}

/// Refuses a source whose identity indexes were not all rebuilt: each
/// source index name must be among the rebuilt ones. The error lists the
/// others once each, in text order.
pub fn check_orphaned_source_indexes(source_index_names: &[String], rebuilt_index_names: &[String]) -> (r:
    Result<(), String>)
    ensures
        r is Ok <==> forall|k: int|
            0 <= k < source_index_names@.len() ==> names_of(rebuilt_index_names@).contains(
                #[trigger] names_of(source_index_names@)[k],
            ),
        r matches Err(e) ==> e@
            == "u32-time-v0 source contains content indexes without authoritative record files: "@
            + joined_names(orphaned_names(names_of(source_index_names@), names_of(rebuilt_index_names@))),
{
    let ghost src = names_of(source_index_names@);
    let ghost reb = names_of(rebuilt_index_names@);
    let ghost keep = |n: Seq<char>| !reb.contains(n);
    let mut orphans: Vec<String> = Vec::new();
    let mut i: usize = 0;
    assert(src.subrange(0, 0).filter(keep) =~= Seq::<Seq<char>>::empty());
    while i < source_index_names.len()
        invariant
            src == names_of(source_index_names@),
            reb == names_of(rebuilt_index_names@),
            keep == (|n: Seq<char>| !reb.contains(n)),
            i <= src.len(),
            names_of(orphans@) == name_set(src.subrange(0, i as int).filter(keep)),
            (orphans@.len() == 0) <==> forall|k: int| 0 <= k < i ==> reb.contains(#[trigger] src[k]),
        decreases src.len() - i,
    {
        let name = &source_index_names[i];
        let ghost prefix = src.subrange(0, i + 1);
        proof {
            assert(prefix.drop_last() =~= src.subrange(0, i as int));
            assert(prefix.last() == src[i as int]);
            assert(prefix.filter(keep) == if keep(prefix.last()) {
                prefix.drop_last().filter(keep).push(prefix.last())
            } else {
                prefix.drop_last().filter(keep)
            }) by {
                reveal(Seq::filter);
            }
        }
        if !contains_name(rebuilt_index_names, name.as_str()) {
            let ghost before = names_of(orphans@);
            let mut j: usize = 0;
            while j < orphans.len() && !str_eq(orphans[j].as_str(), name.as_str()) && !crate::generation::activation::text_less(
                name.as_str(),
                orphans[j].as_str(),
            )
                invariant
                    before == names_of(orphans@),
                    j <= orphans@.len(),
                    forall|k: int|
                        0 <= k < j ==> #[trigger] before[k] != name@ && !text_lt(name@, before[k]),
                decreases orphans@.len() - j,
            {
                j = j + 1;
            }
            proof {
                lemma_insert_name_at(before, name@, j as int);
            }
            if !(j < orphans.len() && str_eq(orphans[j].as_str(), name.as_str())) {
                orphans.insert(j, name.clone());
                assert(names_of(orphans@) =~= before.insert(j as int, name@));
            }
            proof {
                assert(names_of(orphans@) == insert_name(before, name@));
                assert(insert_name(before, name@).len() > 0) by {
                    lemma_insert_name_nonempty(before, name@);
                }
                assert(keep(src[i as int]));
                let pf = src.subrange(0, i as int).filter(keep).push(name@);
                assert(pf.drop_last() =~= src.subrange(0, i as int).filter(keep));
                assert(pf.last() == name@);
                assert(prefix.filter(keep) == pf);
            }
        } else {
            proof {
                assert(reb.contains(src[i as int]));
                assert(!keep(src[i as int]));
                assert(prefix.filter(keep) == src.subrange(0, i as int).filter(keep));
            }
        }
        i = i + 1;
    }
    assert(src.subrange(0, src.len() as int) =~= src);
    if orphans.len() == 0 {
        return Ok(());
    }
    let mut v = chars_of("u32-time-v0 source contains content indexes without authoritative record files: ");
    let ghost head = v@;
    let mut k: usize = 0;
    while k < orphans.len()
        invariant
            v@ == head + joined_names(names_of(orphans@).subrange(0, k as int)),
            k <= orphans@.len(),
        decreases orphans@.len() - k,
    {
        if k > 0 {
            push_str(&mut v, ", ");
        }
        push_str(&mut v, orphans[k].as_str());
        proof {
            let p = names_of(orphans@).subrange(0, k + 1);
            assert(p.drop_last() =~= names_of(orphans@).subrange(0, k as int));
            assert(p.last() == orphans@[k as int]@);
            if k == 0 {
                assert(joined_names(p) == p[0]);
            }
        }
        k = k + 1;
    }
    assert(names_of(orphans@).subrange(0, orphans@.len() as int) =~= names_of(orphans@));
    Err(string_from_chars(&v))
}

proof fn lemma_insert_name_nonempty(sorted: Seq<Seq<char>>, x: Seq<char>)
    ensures
        insert_name(sorted, x).len() > 0,
    decreases sorted.len(),
{
    if sorted.len() > 0 && sorted[0] != x && !text_lt(x, sorted[0]) {
        lemma_insert_name_nonempty(sorted.drop_first(), x);
    }
}

} // verus!
