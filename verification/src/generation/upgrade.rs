//! Widening of the predecessor `u32-time-v0` record layouts to the
//! `u64-second-v0` layouts: every declared timestamp is zero-extended from a
//! little-endian `u32` to a little-endian `u64` and every other byte is kept
//! in order.

use vstd::bytes::*;
use vstd::prelude::*;

use crate::digest::{sha256_digest, spec_sha256};
use crate::generation::capture::layout_one;
use crate::generation::content_closure::raw_record;
use crate::generation::manifest::GenerationFileManifest;
use crate::schema::codec::{le64, push_slice, push_u64, read_u32};
use crate::text::{
    cat2, chars_eq_str, chars_of, hex_lower, push_decimal, push_str, spec_decimal, spec_hex_lower,
    spec_strip_prefix, str_eq, strip_prefix_chars, string_from_chars,
};

verus! {

pub const U32_TIME_V0_SOURCE_SELECTOR: &'static str = "u32-time-v0";

pub const U64_SECOND_V0_TARGET_SELECTOR: &'static str = "u64-second-v0";

/// How one fixed-size record file changes width: its record sizes before and
/// after, and the offsets of its `u32` timestamps in the source record.
#[derive(Clone, Debug)]
pub struct TimeWidthPlan {
    pub name: &'static str,
    pub source_record_size: usize,
    pub target_record_size: usize,
    pub source_time_offsets: Vec<usize>,
}

/// A plan as plain values: name, source size, target size, time offsets.
pub open spec fn plan_row(p: TimeWidthPlan) -> (Seq<char>, usize, usize, Seq<usize>) {
    (p.name@, p.source_record_size, p.target_record_size, p.source_time_offsets@)
}

/// The predecessor layouts that carry timestamps.
pub open spec fn plan_rows() -> Seq<(Seq<char>, usize, usize, Seq<usize>)> {
    seq![
        ("task.bin"@, 44usize, 64usize, seq![24usize, 28, 32, 36, 40]),
        ("change.bin"@, 52usize, 68usize, seq![32usize, 36, 40, 48]),
        ("land.bin"@, 36usize, 44usize, seq![24usize, 28]),
        ("line.bin"@, 28usize, 40usize, seq![16usize, 20, 24]),
        ("blob.bin"@, 56usize, 64usize, seq![16usize, 20]),
        ("snapshot.bin"@, 84usize, 88usize, seq![80usize]),
        ("object_pack.bin"@, 28usize, 32usize, seq![24usize]),
        ("tree_pack.bin"@, 28usize, 32usize, seq![24usize]),
        ("plan.bin"@, 36usize, 48usize, seq![24usize, 28, 32]),
        ("plan_revision.bin"@, 48usize, 56usize, seq![40usize, 44]),
    ]
}

fn plan(name: &'static str, source: usize, target: usize, offsets: Vec<usize>) -> (p: TimeWidthPlan)
    ensures
        plan_row(p) == (name@, source, target, offsets@),
{
    TimeWidthPlan {
        name,
        source_record_size: source,
        target_record_size: target,
        source_time_offsets: offsets,
    }
}

/// Every width plan, in declaration order.
pub fn time_width_plans() -> (plans: Vec<TimeWidthPlan>)
    ensures
        plans@.len() == plan_rows().len(),
        forall|i: int| 0 <= i < plans@.len() ==> plan_row(#[trigger] plans@[i]) == plan_rows()[i],
{
    let mut plans: Vec<TimeWidthPlan> = Vec::new();
    plans.push(plan("task.bin", 44, 64, vec![24, 28, 32, 36, 40]));
    plans.push(plan("change.bin", 52, 68, vec![32, 36, 40, 48]));
    plans.push(plan("land.bin", 36, 44, vec![24, 28]));
    plans.push(plan("line.bin", 28, 40, vec![16, 20, 24]));
    plans.push(plan("blob.bin", 56, 64, vec![16, 20]));
    plans.push(plan("snapshot.bin", 84, 88, vec![80]));
    plans.push(plan("object_pack.bin", 28, 32, vec![24]));
    plans.push(plan("tree_pack.bin", 28, 32, vec![24]));
    plans.push(plan("plan.bin", 36, 48, vec![24, 28, 32]));
    plans.push(plan("plan_revision.bin", 48, 56, vec![40, 44]));
    assert forall|i: int| 0 <= i < plans@.len() implies plan_row(#[trigger] plans@[i])
        == plan_rows()[i] by {
        assert(plan_rows()[i] == plan_rows()[i]);
    }
    plans
}

/// The width plan of the file called `name`, if it has one.
pub fn time_width_plan(name: &str) -> (r: Option<TimeWidthPlan>)
    ensures
        r is Some <==> exists|i: int| 0 <= i < plan_rows().len() && (#[trigger] plan_rows()[i]).0
            == name@,
        r matches Some(p) ==> p.name@ == name@ && exists|i: int|
            0 <= i < plan_rows().len() && plan_row(p) == #[trigger] plan_rows()[i],
{
    let plans = time_width_plans();
    let mut i: usize = 0;
    while i < plans.len()
        invariant
            plans@.len() == plan_rows().len(),
            forall|j: int| 0 <= j < plans@.len() ==> plan_row(#[trigger] plans@[j]) == plan_rows()[j],
            i <= plans@.len(),
            forall|j: int| 0 <= j < i ==> (#[trigger] plan_rows()[j]).0 != name@,
        decreases plans@.len() - i,
    {
        if str_eq(plans[i].name, name) {
            assert(plan_row(plans@[i as int]) == plan_rows()[i as int]);
            let mut plans = plans;
            return Some(plans.remove(i));
        }
        i = i + 1;
    }
    None
}

/// The timestamps lie in ascending order, do not overlap, fit in the source
/// record, and each widens the record by four bytes.
pub open spec fn plan_valid(source: int, target: int, offsets: Seq<usize>) -> bool {
    &&& forall|k: int| 0 <= k < offsets.len() ==> #[trigger] offsets[k] + 4 <= source
    &&& forall|k: int| 0 < k < offsets.len() ==> #[trigger] offsets[k] >= offsets[k - 1] + 4
    &&& source + 4 * offsets.len() == target
}

/// Every declared width plan is exact: its timestamps are ordered, inside
/// the source record, and account for the whole growth of the record.
pub proof fn law_every_time_width_plan_is_valid()
    ensures
        forall|i: int|
            0 <= i < plan_rows().len() ==> plan_valid(
                (#[trigger] plan_rows()[i]).1 as int,
                plan_rows()[i].2 as int,
                plan_rows()[i].3,
            ),
{
    assert forall|i: int| 0 <= i < plan_rows().len() implies plan_valid(
        (#[trigger] plan_rows()[i]).1 as int,
        plan_rows()[i].2 as int,
        plan_rows()[i].3,
    ) by {
        let offs = plan_rows()[i].3;
        assert(plan_valid(plan_rows()[i].1 as int, plan_rows()[i].2 as int, offs)) by {
            if i == 0 {
                assert(offs == seq![24usize, 28, 32, 36, 40]);
            } else if i == 1 {
                assert(offs == seq![32usize, 36, 40, 48]);
            } else if i == 2 {
                assert(offs == seq![24usize, 28]);
            } else if i == 3 {
                assert(offs == seq![16usize, 20, 24]);
            } else if i == 4 {
                assert(offs == seq![16usize, 20]);
            } else if i == 5 {
                assert(offs == seq![80usize]);
            } else if i == 6 || i == 7 {
                assert(offs == seq![24usize]);
            } else if i == 8 {
                assert(offs == seq![24usize, 28, 32]);
            } else {
                assert(offs == seq![40usize, 44]);
            }
        }
    }
}

/// Where the `k`-th timestamp field of a record starts, before widening.
pub open spec fn field_start(offsets: Seq<usize>, k: int, cursor: int) -> int {
    if k == 0 {
        cursor
    } else {
        offsets[k - 1] + 4
    }
}

proof fn lemma_subrange_after<T>(x: Seq<T>, y: Seq<T>, from: int, to: int)
    requires
        x.len() <= from <= to <= x.len() + y.len(),
    ensures
        (x + y).subrange(from, to) == y.subrange(from - x.len(), to - x.len()),
{
    assert((x + y).subrange(from, to) =~= y.subrange(from - x.len(), to - x.len()));
}

proof fn lemma_rest_fits(raw_len: int, offsets: Seq<usize>, cursor: int)
    requires
        offsets_fit(raw_len, offsets, cursor),
        offsets.len() > 0,
    ensures
        offsets_fit(raw_len, offsets.drop_first(), offsets[0] + 4),
{
    let rest = offsets.drop_first();
    assert forall|j: int| 0 < j < rest.len() implies #[trigger] rest[j] >= rest[j - 1] + 4 by {
        assert(rest[j] == offsets[j + 1] && rest[j - 1] == offsets[j]);
    }
    assert forall|j: int| 0 <= j < rest.len() implies #[trigger] rest[j] + 4 <= raw_len by {
        assert(rest[j] == offsets[j + 1]);
    }
    if rest.len() > 0 {
        assert(rest[0] == offsets[1]);
    }
}

proof fn lemma_offsets_from_cursor(raw_len: int, offsets: Seq<usize>, cursor: int, i: int)
    requires
        offsets_fit(raw_len, offsets, cursor),
        0 <= i < offsets.len(),
    ensures
        cursor <= offsets[i],
    decreases i,
{
    if i > 0 {
        lemma_offsets_from_cursor(raw_len, offsets, cursor, i - 1);
        assert(offsets[i] >= offsets[i - 1] + 4);
    }
}

#[verifier::spinoff_prover]
#[verifier::rlimit(60)]
proof fn lemma_widen_fields(raw: Seq<u8>, offsets: Seq<usize>, cursor: int, k: int)
    requires
        offsets_fit(raw.len() as int, offsets, cursor),
        0 <= k < offsets.len(),
    ensures
        ({
            let w = spec_widen(raw, offsets, cursor);
            let at = offsets[k] - cursor + 4 * k;
            &&& w.subrange(at, at + 8) == le64(
                spec_u32_from_le_bytes(raw.subrange(offsets[k] as int, offsets[k] + 4)) as u64,
            )
            &&& w.subrange(field_start(offsets, k, cursor) - cursor + 4 * k, at) == raw.subrange(
                field_start(offsets, k, cursor),
                offsets[k] as int,
            )
        }),
    decreases offsets.len(),
{
    let o = offsets[0] as int;
    let rest = offsets.drop_first();
    let value = le64(spec_u32_from_le_bytes(raw.subrange(o, o + 4)) as u64);
    assert(value.len() == 8) by {
        lemma_auto_spec_u64_to_from_le_bytes();
    }
    lemma_rest_fits(raw.len() as int, offsets, cursor);
    let head = raw.subrange(cursor, o);
    let tail = spec_widen(raw, rest, o + 4);
    let w = spec_widen(raw, offsets, cursor);
    assert(w == (head + value) + tail);
    lemma_widen_len(raw, rest, o + 4);
    if k == 0 {
        assert(w.subrange(o - cursor, o - cursor + 8) =~= value);
        assert(w.subrange(0, o - cursor) =~= head);
    } else {
        lemma_widen_fields(raw, rest, o + 4, k - 1);
        assert(rest[k - 1] == offsets[k]);
        let at = offsets[k] - cursor + 4 * k;
        let shift = o - cursor + 8;
        assert(field_start(offsets, k, cursor) == field_start(rest, k - 1, o + 4)) by {
            if k > 1 {
                assert(rest[k - 2] == offsets[k - 1]);
            }
        }
        assert(field_start(rest, k - 1, o + 4) >= o + 4) by {
            if k > 1 {
                lemma_offsets_from_cursor(raw.len() as int, rest, o + 4, k - 2);
            }
        }
        let from = field_start(offsets, k, cursor) - cursor + 4 * k;
        assert(shift <= from <= at);
        lemma_subrange_after(head + value, tail, at, at + 8);
        lemma_subrange_after(head + value, tail, from, at);
    }
}

/// Widening keeps the record exact: every declared timestamp is
/// zero-extended from a little-endian `u32` to a little-endian `u64` in
/// place, and the bytes before each timestamp are kept in order, each
/// field moving four bytes further for every earlier timestamp.
pub proof fn law_widening_zero_extends_timestamps_and_keeps_other_bytes(
    raw: Seq<u8>,
    source_size: int,
    target_size: int,
    offsets: Seq<usize>,
    k: int,
)
    requires
        raw.len() == source_size,
        plan_valid(source_size, target_size, offsets),
        0 <= k < offsets.len(),
    ensures
        spec_widen(raw, offsets, 0).len() == target_size,
        spec_widen(raw, offsets, 0).subrange(offsets[k] + 4 * k, offsets[k] + 4 * k + 8) == le64(
            spec_u32_from_le_bytes(raw.subrange(offsets[k] as int, offsets[k] + 4)) as u64,
        ),
        spec_widen(raw, offsets, 0).subrange(field_start(offsets, k, 0) + 4 * k, offsets[k] + 4 * k)
            == raw.subrange(field_start(offsets, k, 0), offsets[k] as int),
{
    assert(offsets_fit(raw.len() as int, offsets, 0));
    lemma_widen_len(raw, offsets, 0);
    lemma_widen_fields(raw, offsets, 0, k);
}

fn plan_message(name: &str, middle: &str, n: u64, tail: &str) -> (s: String)
    ensures
        s@ == name@ + middle@ + spec_decimal(n as nat) + tail@,
{
    let mut v = chars_of(name);
    push_str(&mut v, middle);
    push_decimal(&mut v, n);
    push_str(&mut v, tail);
    string_from_chars(&v)
}

/// Timestamp `k` of a plan lies inside the source record and after the
/// previous timestamp.
pub open spec fn offset_ok(size: usize, offsets: Seq<usize>, k: int) -> bool {
    &&& offsets[k] + 4 <= size
    &&& k > 0 ==> offsets[k] >= offsets[k - 1] + 4
}

/// The message that refuses a plan: its first misplaced timestamp, a target
/// size past `usize`, or a target size the timestamps do not account for.
pub open spec fn plan_refusal(
    name: Seq<char>,
    size: usize,
    target: usize,
    offsets: Seq<usize>,
    e: Seq<char>,
) -> bool {
    let grown = size + 4 * offsets.len();
    ||| exists|k: int|
        0 <= k < offsets.len() && (forall|j: int| 0 <= j < k ==> offset_ok(size, offsets, j))
            && !#[trigger] offset_ok(size, offsets, k) && e == name
            + " has an invalid timestamp offset "@ + spec_decimal(offsets[k] as nat) + ""@
    ||| (forall|k: int| 0 <= k < offsets.len() ==> offset_ok(size, offsets, k)) && grown > usize::MAX
        && e == name + " target record size overflow"@
    ||| (forall|k: int| 0 <= k < offsets.len() ==> offset_ok(size, offsets, k)) && grown
        <= usize::MAX && grown != target && e == name + " target record size "@ + spec_decimal(
        target as nat,
    ) + " disagrees with "@ + spec_decimal(offsets.len()) + " declared timestamps"@
}

/// Accepts a plan exactly when its timestamps are ordered, inside the
/// source record, and account for the whole growth of the record.
pub fn validate_time_width_plan(plan: &TimeWidthPlan) -> (r: Result<(), String>)
    ensures
        r is Ok <==> plan_valid(
            plan.source_record_size as int,
            plan.target_record_size as int,
            plan.source_time_offsets@,
        ),
        r matches Err(e) ==> plan_refusal(
            plan.name@,
            plan.source_record_size,
            plan.target_record_size,
            plan.source_time_offsets@,
            e@,
        ),
{
    let offsets = &plan.source_time_offsets;
    let ghost offs = offsets@;
    let size = plan.source_record_size;
    let mut previous_end: usize = 0;
    let mut k: usize = 0;
    while k < offsets.len()
        invariant
            offs == offsets@,
            offs == plan.source_time_offsets@,
            size == plan.source_record_size,
            k <= offs.len(),
            k == 0 ==> previous_end == 0,
            k > 0 ==> previous_end == offs[k - 1] + 4,
            forall|j: int| 0 <= j < k ==> #[trigger] offs[j] + 4 <= size,
            forall|j: int| 0 < j < k ==> #[trigger] offs[j] >= offs[j - 1] + 4,
            previous_end <= size,
            4 * k <= previous_end,
        decreases offs.len() - k,
    {
        let offset = offsets[k];
        if offset < previous_end || offset > size || size - offset < 4 {
            proof {
                assert(offs[k as int] + 4 > size || (k > 0 && offs[k as int] < offs[k - 1] + 4));
            }
            let message = plan_message(plan.name, " has an invalid timestamp offset ", offset as u64, "");
            proof {
                assert forall|j: int| 0 <= j < k implies offset_ok(size, offs, j) by {}
                assert(!offset_ok(size, offs, k as int));
            }
            return Err(message);
        }
        previous_end = offset + 4;
        k = k + 1;
    }
    assert forall|j: int| 0 <= j < offs.len() implies offset_ok(size, offs, j) by {}
    let growth = 4 * offsets.len();
    if size > usize::MAX - growth {
        let mut v = chars_of(plan.name);
        push_str(&mut v, " target record size overflow");
        return Err(string_from_chars(&v));
    }
    let expected_target = size + growth;
    if expected_target != plan.target_record_size {
        let mut v = chars_of(plan.name);
        push_str(&mut v, " target record size ");
        push_decimal(&mut v, plan.target_record_size as u64);
        push_str(&mut v, " disagrees with ");
        push_decimal(&mut v, offsets.len() as u64);
        push_str(&mut v, " declared timestamps");
        return Err(string_from_chars(&v));
    }
    Ok(())
}

/// The widened record: the bytes from `cursor` up to each timestamp are
/// kept, each timestamp is replaced by the little-endian `u64` of its
/// little-endian `u32` value, and the tail after the last one is kept.
pub open spec fn spec_widen(raw: Seq<u8>, offsets: Seq<usize>, cursor: int) -> Seq<u8>
    decreases offsets.len(),
{
    if offsets.len() == 0 {
        raw.subrange(cursor, raw.len() as int)
    } else {
        let o = offsets[0] as int;
        raw.subrange(cursor, o) + le64(spec_u32_from_le_bytes(raw.subrange(o, o + 4)) as u64)
            + spec_widen(raw, offsets.drop_first(), o + 4)
    }
}

/// The little-endian `u32` timestamp at `at`, widened to a little-endian
/// `u64`.
pub open spec fn widened_time(raw: Seq<u8>, at: int) -> Seq<u8> {
    le64(spec_u32_from_le_bytes(raw.subrange(at, at + 4)) as u64)
}

/// The plan declared for the table called `name`.
pub open spec fn declared_offsets(name: Seq<char>) -> Seq<usize> {
    plan_rows()[choose|i: int| 0 <= i < plan_rows().len() && plan_rows()[i].0 == name].3
}

proof fn lemma_plan_names(i: int)
    requires
        0 <= i < plan_rows().len(),
    ensures
        forall|j: int| 0 <= j < plan_rows().len() && plan_rows()[j].0 == plan_rows()[i].0 ==> j == i,
{
    reveal_strlit("task.bin");
    reveal_strlit("change.bin");
    reveal_strlit("land.bin");
    reveal_strlit("line.bin");
    reveal_strlit("blob.bin");
    reveal_strlit("snapshot.bin");
    reveal_strlit("object_pack.bin");
    reveal_strlit("tree_pack.bin");
    reveal_strlit("plan.bin");
    reveal_strlit("plan_revision.bin");
    let rows = plan_rows();
    assert forall|j: int| 0 <= j < rows.len() && rows[j].0 == rows[i].0 implies j == i by {
        if j != i {
            let a = rows[i].0;
            let b = rows[j].0;
            assert(a.len() != b.len() || a[0] != b[0] || a[1] != b[1]);
        }
    }
}

#[verifier::spinoff_prover]
proof fn lemma_widen_task(raw: Seq<u8>)
    requires
        raw.len() == 44,
    ensures
        spec_widen(raw, seq![24usize, 28, 32, 36, 40], 0) == raw.subrange(0, 24) + widened_time(raw, 24) + widened_time(raw, 28) + widened_time(raw, 32) + widened_time(raw, 36) + widened_time(raw, 40),
{
    reveal_with_fuel(spec_widen, 6);
    let offs = seq![24usize, 28, 32, 36, 40];
    assert(offs.drop_first() =~= seq![28usize, 32, 36, 40]);
    assert(offs.drop_first().drop_first() =~= seq![32usize, 36, 40]);
    assert(offs.drop_first().drop_first().drop_first() =~= seq![36usize, 40]);
    assert(offs.drop_first().drop_first().drop_first().drop_first() =~= seq![40usize]);
    assert(offs.drop_first().drop_first().drop_first().drop_first().drop_first() =~= Seq::<usize>::empty());
    assert(spec_widen(raw, offs, 0) == raw.subrange(0, 24) + widened_time(raw, 24) + raw.subrange(28, 28) + widened_time(raw, 28) + raw.subrange(32, 32) + widened_time(raw, 32) + raw.subrange(36, 36) + widened_time(raw, 36) + raw.subrange(40, 40) + widened_time(raw, 40) + raw.subrange(44, 44));
    assert(raw.subrange(28, 28) =~= Seq::<u8>::empty());
    assert(raw.subrange(32, 32) =~= Seq::<u8>::empty());
    assert(raw.subrange(36, 36) =~= Seq::<u8>::empty());
    assert(raw.subrange(40, 40) =~= Seq::<u8>::empty());
    assert(raw.subrange(44, 44) =~= Seq::<u8>::empty());
    assert(spec_widen(raw, offs, 0) =~= raw.subrange(0, 24) + widened_time(raw, 24) + widened_time(raw, 28) + widened_time(raw, 32) + widened_time(raw, 36) + widened_time(raw, 40));
}

#[verifier::spinoff_prover]
proof fn lemma_widen_change(raw: Seq<u8>)
    requires
        raw.len() == 52,
    ensures
        spec_widen(raw, seq![32usize, 36, 40, 48], 0) == raw.subrange(0, 32) + widened_time(raw, 32) + widened_time(raw, 36) + widened_time(raw, 40) + raw.subrange(44, 48) + widened_time(raw, 48),
{
    reveal_with_fuel(spec_widen, 5);
    let offs = seq![32usize, 36, 40, 48];
    assert(offs.drop_first() =~= seq![36usize, 40, 48]);
    assert(offs.drop_first().drop_first() =~= seq![40usize, 48]);
    assert(offs.drop_first().drop_first().drop_first() =~= seq![48usize]);
    assert(offs.drop_first().drop_first().drop_first().drop_first() =~= Seq::<usize>::empty());
    assert(spec_widen(raw, offs, 0) == raw.subrange(0, 32) + widened_time(raw, 32) + raw.subrange(36, 36) + widened_time(raw, 36) + raw.subrange(40, 40) + widened_time(raw, 40) + raw.subrange(44, 48) + widened_time(raw, 48) + raw.subrange(52, 52));
    assert(raw.subrange(36, 36) =~= Seq::<u8>::empty());
    assert(raw.subrange(40, 40) =~= Seq::<u8>::empty());
    assert(raw.subrange(52, 52) =~= Seq::<u8>::empty());
    assert(spec_widen(raw, offs, 0) =~= raw.subrange(0, 32) + widened_time(raw, 32) + widened_time(raw, 36) + widened_time(raw, 40) + raw.subrange(44, 48) + widened_time(raw, 48));
}

#[verifier::spinoff_prover]
proof fn lemma_widen_land(raw: Seq<u8>)
    requires
        raw.len() == 36,
    ensures
        spec_widen(raw, seq![24usize, 28], 0) == raw.subrange(0, 24) + widened_time(raw, 24) + widened_time(raw, 28) + raw.subrange(32, 36),
{
    reveal_with_fuel(spec_widen, 3);
    let offs = seq![24usize, 28];
    assert(offs.drop_first() =~= seq![28usize]);
    assert(offs.drop_first().drop_first() =~= Seq::<usize>::empty());
    assert(spec_widen(raw, offs, 0) == raw.subrange(0, 24) + widened_time(raw, 24) + raw.subrange(28, 28) + widened_time(raw, 28) + raw.subrange(32, 36));
    assert(raw.subrange(28, 28) =~= Seq::<u8>::empty());
    assert(spec_widen(raw, offs, 0) =~= raw.subrange(0, 24) + widened_time(raw, 24) + widened_time(raw, 28) + raw.subrange(32, 36));
}

#[verifier::spinoff_prover]
proof fn lemma_widen_line(raw: Seq<u8>)
    requires
        raw.len() == 28,
    ensures
        spec_widen(raw, seq![16usize, 20, 24], 0) == raw.subrange(0, 16) + widened_time(raw, 16) + widened_time(raw, 20) + widened_time(raw, 24),
{
    reveal_with_fuel(spec_widen, 4);
    let offs = seq![16usize, 20, 24];
    assert(offs.drop_first() =~= seq![20usize, 24]);
    assert(offs.drop_first().drop_first() =~= seq![24usize]);
    assert(offs.drop_first().drop_first().drop_first() =~= Seq::<usize>::empty());
    assert(spec_widen(raw, offs, 0) == raw.subrange(0, 16) + widened_time(raw, 16) + raw.subrange(20, 20) + widened_time(raw, 20) + raw.subrange(24, 24) + widened_time(raw, 24) + raw.subrange(28, 28));
    assert(raw.subrange(20, 20) =~= Seq::<u8>::empty());
    assert(raw.subrange(24, 24) =~= Seq::<u8>::empty());
    assert(raw.subrange(28, 28) =~= Seq::<u8>::empty());
    assert(spec_widen(raw, offs, 0) =~= raw.subrange(0, 16) + widened_time(raw, 16) + widened_time(raw, 20) + widened_time(raw, 24));
}

#[verifier::spinoff_prover]
proof fn lemma_widen_blob(raw: Seq<u8>)
    requires
        raw.len() == 56,
    ensures
        spec_widen(raw, seq![16usize, 20], 0) == raw.subrange(0, 16) + widened_time(raw, 16) + widened_time(raw, 20) + raw.subrange(24, 56),
{
    reveal_with_fuel(spec_widen, 3);
    let offs = seq![16usize, 20];
    assert(offs.drop_first() =~= seq![20usize]);
    assert(offs.drop_first().drop_first() =~= Seq::<usize>::empty());
    assert(spec_widen(raw, offs, 0) == raw.subrange(0, 16) + widened_time(raw, 16) + raw.subrange(20, 20) + widened_time(raw, 20) + raw.subrange(24, 56));
    assert(raw.subrange(20, 20) =~= Seq::<u8>::empty());
    assert(spec_widen(raw, offs, 0) =~= raw.subrange(0, 16) + widened_time(raw, 16) + widened_time(raw, 20) + raw.subrange(24, 56));
}

#[verifier::spinoff_prover]
proof fn lemma_widen_snapshot(raw: Seq<u8>)
    requires
        raw.len() == 84,
    ensures
        spec_widen(raw, seq![80usize], 0) == raw.subrange(0, 80) + widened_time(raw, 80),
{
    reveal_with_fuel(spec_widen, 2);
    let offs = seq![80usize];
    assert(offs.drop_first() =~= Seq::<usize>::empty());
    assert(spec_widen(raw, offs, 0) == raw.subrange(0, 80) + widened_time(raw, 80) + raw.subrange(84, 84));
    assert(raw.subrange(84, 84) =~= Seq::<u8>::empty());
    assert(spec_widen(raw, offs, 0) =~= raw.subrange(0, 80) + widened_time(raw, 80));
}

#[verifier::spinoff_prover]
proof fn lemma_widen_object_pack(raw: Seq<u8>)
    requires
        raw.len() == 28,
    ensures
        spec_widen(raw, seq![24usize], 0) == raw.subrange(0, 24) + widened_time(raw, 24),
{
    reveal_with_fuel(spec_widen, 2);
    let offs = seq![24usize];
    assert(offs.drop_first() =~= Seq::<usize>::empty());
    assert(spec_widen(raw, offs, 0) == raw.subrange(0, 24) + widened_time(raw, 24) + raw.subrange(28, 28));
    assert(raw.subrange(28, 28) =~= Seq::<u8>::empty());
    assert(spec_widen(raw, offs, 0) =~= raw.subrange(0, 24) + widened_time(raw, 24));
}

#[verifier::spinoff_prover]
proof fn lemma_widen_tree_pack(raw: Seq<u8>)
    requires
        raw.len() == 28,
    ensures
        spec_widen(raw, seq![24usize], 0) == raw.subrange(0, 24) + widened_time(raw, 24),
{
    reveal_with_fuel(spec_widen, 2);
    let offs = seq![24usize];
    assert(offs.drop_first() =~= Seq::<usize>::empty());
    assert(spec_widen(raw, offs, 0) == raw.subrange(0, 24) + widened_time(raw, 24) + raw.subrange(28, 28));
    assert(raw.subrange(28, 28) =~= Seq::<u8>::empty());
    assert(spec_widen(raw, offs, 0) =~= raw.subrange(0, 24) + widened_time(raw, 24));
}

#[verifier::spinoff_prover]
proof fn lemma_widen_plan(raw: Seq<u8>)
    requires
        raw.len() == 36,
    ensures
        spec_widen(raw, seq![24usize, 28, 32], 0) == raw.subrange(0, 24) + widened_time(raw, 24) + widened_time(raw, 28) + widened_time(raw, 32),
{
    reveal_with_fuel(spec_widen, 4);
    let offs = seq![24usize, 28, 32];
    assert(offs.drop_first() =~= seq![28usize, 32]);
    assert(offs.drop_first().drop_first() =~= seq![32usize]);
    assert(offs.drop_first().drop_first().drop_first() =~= Seq::<usize>::empty());
    assert(spec_widen(raw, offs, 0) == raw.subrange(0, 24) + widened_time(raw, 24) + raw.subrange(28, 28) + widened_time(raw, 28) + raw.subrange(32, 32) + widened_time(raw, 32) + raw.subrange(36, 36));
    assert(raw.subrange(28, 28) =~= Seq::<u8>::empty());
    assert(raw.subrange(32, 32) =~= Seq::<u8>::empty());
    assert(raw.subrange(36, 36) =~= Seq::<u8>::empty());
    assert(spec_widen(raw, offs, 0) =~= raw.subrange(0, 24) + widened_time(raw, 24) + widened_time(raw, 28) + widened_time(raw, 32));
}

#[verifier::spinoff_prover]
proof fn lemma_widen_plan_revision(raw: Seq<u8>)
    requires
        raw.len() == 48,
    ensures
        spec_widen(raw, seq![40usize, 44], 0) == raw.subrange(0, 40) + widened_time(raw, 40) + widened_time(raw, 44),
{
    reveal_with_fuel(spec_widen, 3);
    let offs = seq![40usize, 44];
    assert(offs.drop_first() =~= seq![44usize]);
    assert(offs.drop_first().drop_first() =~= Seq::<usize>::empty());
    assert(spec_widen(raw, offs, 0) == raw.subrange(0, 40) + widened_time(raw, 40) + raw.subrange(44, 44) + widened_time(raw, 44) + raw.subrange(48, 48));
    assert(raw.subrange(44, 44) =~= Seq::<u8>::empty());
    assert(raw.subrange(48, 48) =~= Seq::<u8>::empty());
    assert(spec_widen(raw, offs, 0) =~= raw.subrange(0, 40) + widened_time(raw, 40) + widened_time(raw, 44));
}

/// Widening a predecessor record of each table keeps every field of it and
/// turns exactly its timestamps into `u64`s: a task keeps its first 24 bytes
/// and widens the five timestamps after them; a change keeps its first 32
/// bytes, widens the timestamps at 32, 36 and 40, keeps the `u32` field at
/// 44 and widens the timestamp at 48; a land widens 24 and 28 and keeps its
/// last four bytes; a line widens 16, 20 and 24; a blob widens its created
/// and pruned times at 16 and 20 and keeps its digest; a snapshot widens its
/// creation time at 80; object and tree packs widen theirs at 24; a plan
/// widens 24, 28 and 32; a plan revision widens 40 and 44.
pub proof fn law_widening_moves_each_table_field_to_its_place(name: Seq<char>, raw: Seq<u8>)
    ensures
        name == "task.bin"@ && raw.len() == 44 ==> spec_widen(raw, declared_offsets(name), 0)
            == raw.subrange(0, 24) + widened_time(raw, 24) + widened_time(raw, 28) + widened_time(
            raw,
            32,
        ) + widened_time(raw, 36) + widened_time(raw, 40),
        name == "change.bin"@ && raw.len() == 52 ==> spec_widen(raw, declared_offsets(name), 0)
            == raw.subrange(0, 32) + widened_time(raw, 32) + widened_time(raw, 36) + widened_time(
            raw,
            40,
        ) + raw.subrange(44, 48) + widened_time(raw, 48),
        name == "land.bin"@ && raw.len() == 36 ==> spec_widen(raw, declared_offsets(name), 0)
            == raw.subrange(0, 24) + widened_time(raw, 24) + widened_time(raw, 28) + raw.subrange(
            32,
            36,
        ),
        name == "line.bin"@ && raw.len() == 28 ==> spec_widen(raw, declared_offsets(name), 0)
            == raw.subrange(0, 16) + widened_time(raw, 16) + widened_time(raw, 20) + widened_time(
            raw,
            24,
        ),
        name == "blob.bin"@ && raw.len() == 56 ==> spec_widen(raw, declared_offsets(name), 0)
            == raw.subrange(0, 16) + widened_time(raw, 16) + widened_time(raw, 20) + raw.subrange(
            24,
            56,
        ),
        name == "snapshot.bin"@ && raw.len() == 84 ==> spec_widen(raw, declared_offsets(name), 0)
            == raw.subrange(0, 80) + widened_time(raw, 80),
        (name == "object_pack.bin"@ || name == "tree_pack.bin"@) && raw.len() == 28 ==> spec_widen(
            raw,
            declared_offsets(name),
            0,
        ) == raw.subrange(0, 24) + widened_time(raw, 24),
        name == "plan.bin"@ && raw.len() == 36 ==> spec_widen(raw, declared_offsets(name), 0)
            == raw.subrange(0, 24) + widened_time(raw, 24) + widened_time(raw, 28) + widened_time(
            raw,
            32,
        ),
        name == "plan_revision.bin"@ && raw.len() == 48 ==> spec_widen(
            raw,
            declared_offsets(name),
            0,
        ) == raw.subrange(0, 40) + widened_time(raw, 40) + widened_time(raw, 44),
{
    let rows = plan_rows();
    if exists|i: int| 0 <= i < rows.len() && rows[i].0 == name {
        let i = choose|i: int| 0 <= i < rows.len() && rows[i].0 == name;
        lemma_plan_names(i);
        assert(declared_offsets(name) == rows[i].3);
        if name == "task.bin"@ && raw.len() == 44 {
            assert(rows[0].0 == "task.bin"@);
            assert(i == 0);
            assert(rows[0].3 == seq![24usize, 28, 32, 36, 40]);
            lemma_widen_task(raw);
        }
        if name == "change.bin"@ && raw.len() == 52 {
            assert(rows[1].0 == "change.bin"@);
            assert(i == 1);
            assert(rows[1].3 == seq![32usize, 36, 40, 48]);
            lemma_widen_change(raw);
        }
        if name == "land.bin"@ && raw.len() == 36 {
            assert(rows[2].0 == "land.bin"@);
            assert(i == 2);
            assert(rows[2].3 == seq![24usize, 28]);
            lemma_widen_land(raw);
        }
        if name == "line.bin"@ && raw.len() == 28 {
            assert(rows[3].0 == "line.bin"@);
            assert(i == 3);
            assert(rows[3].3 == seq![16usize, 20, 24]);
            lemma_widen_line(raw);
        }
        if name == "blob.bin"@ && raw.len() == 56 {
            assert(rows[4].0 == "blob.bin"@);
            assert(i == 4);
            assert(rows[4].3 == seq![16usize, 20]);
            lemma_widen_blob(raw);
        }
        if name == "snapshot.bin"@ && raw.len() == 84 {
            assert(rows[5].0 == "snapshot.bin"@);
            assert(i == 5);
            assert(rows[5].3 == seq![80usize]);
            lemma_widen_snapshot(raw);
        }
        if name == "object_pack.bin"@ && raw.len() == 28 {
            assert(rows[6].0 == "object_pack.bin"@);
            assert(i == 6);
            assert(rows[6].3 == seq![24usize]);
            lemma_widen_object_pack(raw);
        }
        if name == "tree_pack.bin"@ && raw.len() == 28 {
            assert(rows[7].0 == "tree_pack.bin"@);
            assert(i == 7);
            assert(rows[7].3 == seq![24usize]);
            lemma_widen_tree_pack(raw);
        }
        if name == "plan.bin"@ && raw.len() == 36 {
            assert(rows[8].0 == "plan.bin"@);
            assert(i == 8);
            assert(rows[8].3 == seq![24usize, 28, 32]);
            lemma_widen_plan(raw);
        }
        if name == "plan_revision.bin"@ && raw.len() == 48 {
            assert(rows[9].0 == "plan_revision.bin"@);
            assert(i == 9);
            assert(rows[9].3 == seq![40usize, 44]);
            lemma_widen_plan_revision(raw);
        }
    }
}

/// The offsets from `cursor` on are ordered and inside `raw`.
pub open spec fn offsets_fit(raw_len: int, offsets: Seq<usize>, cursor: int) -> bool {
    &&& offsets.len() > 0 ==> cursor <= offsets[0]
    &&& forall|k: int| 0 <= k < offsets.len() ==> #[trigger] offsets[k] + 4 <= raw_len
    &&& forall|k: int| 0 < k < offsets.len() ==> #[trigger] offsets[k] >= offsets[k - 1] + 4
    &&& 0 <= cursor <= raw_len
}

proof fn lemma_widen_len(raw: Seq<u8>, offsets: Seq<usize>, cursor: int)
    requires
        offsets_fit(raw.len() as int, offsets, cursor),
    ensures
        spec_widen(raw, offsets, cursor).len() == raw.len() - cursor + 4 * offsets.len(),
    decreases offsets.len(),
{
    if offsets.len() > 0 {
        let rest = offsets.drop_first();
        assert forall|k: int| 0 < k < rest.len() implies #[trigger] rest[k] >= rest[k - 1] + 4 by {
            assert(rest[k] == offsets[k + 1] && rest[k - 1] == offsets[k]);
        }
        assert forall|k: int| 0 <= k < rest.len() implies #[trigger] rest[k] + 4 <= raw.len() by {
            assert(rest[k] == offsets[k + 1]);
        }
        if rest.len() > 0 {
            assert(rest[0] == offsets[1]);
        }
        lemma_widen_len(raw, rest, offsets[0] + 4);
        assert(le64(spec_u32_from_le_bytes(raw.subrange(offsets[0] as int, offsets[0] + 4)) as u64).len()
            == 8) by {
            lemma_auto_spec_u64_to_from_le_bytes();
        }
    }
}

proof fn lemma_widen_step(
    raw: Seq<u8>,
    offs: Seq<usize>,
    k: int,
    cursor: int,
    before: Seq<u8>,
    after: Seq<u8>,
)
    requires
        0 <= k < offs.len(),
        cursor <= offs[k] <= raw.len(),
        offs[k] + 4 <= raw.len(),
        before + spec_widen(raw, offs.subrange(k, offs.len() as int), cursor) == spec_widen(raw, offs, 0),
        after == before + raw.subrange(cursor, offs[k] as int) + le64(
            spec_u32_from_le_bytes(raw.subrange(offs[k] as int, offs[k] + 4)) as u64,
        ),
    ensures
        after + spec_widen(raw, offs.subrange(k + 1, offs.len() as int), offs[k] + 4) == spec_widen(
            raw,
            offs,
            0,
        ),
{
    let rest = offs.subrange(k, offs.len() as int);
    let o = offs[k] as int;
    assert(rest[0] == offs[k]);
    assert(rest.drop_first() =~= offs.subrange(k + 1, offs.len() as int));
    let tail = spec_widen(raw, rest.drop_first(), o + 4);
    assert(spec_widen(raw, rest, cursor) == raw.subrange(cursor, o) + le64(
        spec_u32_from_le_bytes(raw.subrange(o, o + 4)) as u64) + tail);
    assert(after + tail =~= before + spec_widen(raw, rest, cursor));
}

fn push_range(out: &mut Vec<u8>, raw: &[u8], from: usize, to: usize)
    requires
        from <= to <= raw@.len(),
    ensures
        final(out)@ == old(out)@ + raw@.subrange(from as int, to as int),
{
    let mut i = from;
    while i < to
        invariant
            from <= i <= to <= raw@.len(),
            out@ == old(out)@ + raw@.subrange(from as int, i as int),
        decreases to - i,
    {
        out.push(raw[i]);
        i = i + 1;
        assert(out@ =~= old(out)@ + raw@.subrange(from as int, i as int));
    }
}

/// Widens one source record by its plan. Fails exactly when the record does
/// not have the plan's source size or the plan is not valid.
pub fn widen_time_record(raw: &[u8], plan: &TimeWidthPlan) -> (r: Result<Vec<u8>, String>)
    ensures
        r is Ok <==> raw@.len() == plan.source_record_size && plan_valid(
            plan.source_record_size as int,
            plan.target_record_size as int,
            plan.source_time_offsets@,
        ),
        r matches Ok(out) ==> out@ == spec_widen(raw@, plan.source_time_offsets@, 0) && out@.len()
            == plan.target_record_size,
{
    if raw.len() != plan.source_record_size {
        let mut v = chars_of(plan.name);
        push_str(&mut v, " source record has ");
        push_decimal(&mut v, raw.len() as u64);
        push_str(&mut v, " bytes, expected ");
        push_decimal(&mut v, plan.source_record_size as u64);
        return Err(string_from_chars(&v));
    }
    validate_time_width_plan(plan)?;
    let offsets = &plan.source_time_offsets;
    let ghost offs = offsets@;
    let mut output: Vec<u8> = Vec::new();
    let mut cursor: usize = 0;
    let mut k: usize = 0;
    proof {
        assert(offs.subrange(0, offs.len() as int) =~= offs);
    }
    while k < offsets.len()
        invariant
            offs == offsets@,
            offs == plan.source_time_offsets@,
            raw@.len() == plan.source_record_size,
            plan_valid(plan.source_record_size as int, plan.target_record_size as int, offs),
            k <= offs.len(),
            k == 0 ==> cursor == 0,
            k > 0 ==> cursor == offs[k - 1] + 4,
            cursor <= raw@.len(),
            output@ + spec_widen(raw@, offs.subrange(k as int, offs.len() as int), cursor as int)
                == spec_widen(raw@, offs, 0),
        decreases offs.len() - k,
    {
        let offset = offsets[k];
        let ghost before = output@;
        push_range(&mut output, raw, cursor, offset);
        let seconds = read_u32(raw, offset);
        push_u64(&mut output, seconds as u64);
        proof {
            lemma_widen_step(raw@, offs, k as int, cursor as int, before, output@);
        }
        cursor = offset + 4;
        k = k + 1;
    }
    let ghost before = output@;
    push_range(&mut output, raw, cursor, raw.len());
    proof {
        assert(offs.subrange(k as int, offs.len() as int) =~= Seq::<usize>::empty());
        assert(output@ =~= spec_widen(raw@, offs, 0));
        lemma_widen_len(raw@, offs, 0);
    }
    if output.len() != plan.target_record_size {
        let mut v = chars_of(plan.name);
        push_str(&mut v, " widened record has ");
        push_decimal(&mut v, output.len() as u64);
        push_str(&mut v, " bytes, expected ");
        push_decimal(&mut v, plan.target_record_size as u64);
        return Err(string_from_chars(&v));
    }
    Ok(output)
}

/// The widened records of the first `n` records of a predecessor table
/// file, in order.
pub open spec fn widened_records(file: Seq<u8>, size: nat, offsets: Seq<usize>, n: nat) -> Seq<u8>
    decreases n,
{
    if n == 0 {
        Seq::empty()
    } else {
        widened_records(file, size, offsets, (n - 1) as nat) + spec_widen(
            raw_record(Some(file), size, n - 1),
            offsets,
            0,
        )
    }
}

/// Number of source records of a predecessor table file.
pub open spec fn source_record_count(file: Seq<u8>, size: nat) -> nat {
    ((file.len() - 4) / (size as int)) as nat
}

/// The message that refuses a source file for widening: shorter than its
/// header, a layout other than 1, an invalid plan, a body that is empty or
/// not whole source records, or a widened size past `u64`.
pub open spec fn widen_file_refusal(plan: TimeWidthPlan, source: Seq<u8>, e: Seq<char>) -> bool {
    let name = plan.name@;
    let size = plan.source_record_size;
    let body = source.len() - 4;
    ||| source.len() < 4 && e == name + " source is shorter than its layout header"@
    ||| source.len() >= 4 && !layout_one(source) && e == name + " source layout is not layout_id 1"@
    ||| layout_one(source) && !plan_valid(
        size as int,
        plan.target_record_size as int,
        plan.source_time_offsets@,
    ) && plan_refusal(name, size, plan.target_record_size, plan.source_time_offsets@, e)
    ||| layout_one(source) && plan_valid(
        size as int,
        plan.target_record_size as int,
        plan.source_time_offsets@,
    ) && (body == 0 || body % (size as int) != 0) && e == name + " is not a non-empty explicit "@
        + spec_decimal(size as nat) + "-byte u32-time-v0 record file"@
    ||| layout_one(source) && plan_valid(
        size as int,
        plan.target_record_size as int,
        plan.source_time_offsets@,
    ) && body > 0 && body % (size as int) == 0 && 4 + (body / (size as int))
        * plan.target_record_size > u64::MAX && e == name + " target byte count overflow"@
}

/// Widens a whole predecessor table file by its plan and describes the
/// result for the generation manifest. Succeeds exactly when the file has
/// layout 1, a non-empty body of whole source records, the plan is valid,
/// and the widened size fits in `u64`; the result is the header followed by
/// each widened record in order.
pub fn widen_time_record_file(source: &[u8], plan: &TimeWidthPlan) -> (r: Result<
    (Vec<u8>, GenerationFileManifest),
    String,
>)
    requires
        plan.source_record_size > 0,
    ensures
        r is Ok <==> {
            &&& layout_one(source@)
            &&& plan_valid(
                plan.source_record_size as int,
                plan.target_record_size as int,
                plan.source_time_offsets@,
            )
            &&& source@.len() > 4
            &&& (source@.len() - 4) % (plan.source_record_size as int) == 0
            &&& 4 + source_record_count(source@, plan.source_record_size as nat)
                * plan.target_record_size <= u64::MAX
        },
        r matches Ok((bytes, m)) ==> {
            let n = source_record_count(source@, plan.source_record_size as nat);
            &&& bytes@ == source@.subrange(0, 4) + widened_records(
                source@,
                plan.source_record_size as nat,
                plan.source_time_offsets@,
                n,
            )
            &&& m.relative_path@ == "local/"@ + plan.name@
            &&& m.byte_size == 4 + n * plan.target_record_size
            &&& m.byte_size == bytes@.len()
            &&& m.sha256@ == spec_hex_lower(spec_sha256(bytes@))
            &&& m.record_count == Some(n as u64)
        },
        r matches Err(e) ==> widen_file_refusal(*plan, source@, e@),
{
    let ghost f = source@;
    let ghost size = plan.source_record_size as nat;
    let ghost offs = plan.source_time_offsets@;
    if source.len() < 4 {
        let mut v = chars_of(plan.name);
        push_str(&mut v, " source is shorter than its layout header");
        let message = string_from_chars(&v);
        assert(widen_file_refusal(*plan, source@, message@));
        return Err(message);
    }
    let header = vstd::slice::slice_subrange(source, 0, 4);
    if u32_from_le_bytes(header) != 1 {
        let mut v = chars_of(plan.name);
        push_str(&mut v, " source layout is not layout_id 1");
        let message = string_from_chars(&v);
        proof {
            lemma_auto_spec_u32_to_from_le_bytes();
            assert(header@ == source@.subrange(0, 4));
            assert(widen_file_refusal(*plan, source@, message@));
        }
        return Err(message);
    }
    if let Err(e) = validate_time_width_plan(plan) {
        assert(widen_file_refusal(*plan, source@, e@));
        return Err(e);
    }
    let body = (source.len() - 4) as u64;
    let record_size = plan.source_record_size as u64;
    if body == 0 || body % record_size != 0 {
        let mut v = chars_of(plan.name);
        push_str(&mut v, " is not a non-empty explicit ");
        push_decimal(&mut v, record_size);
        push_str(&mut v, "-byte u32-time-v0 record file");
        let message = string_from_chars(&v);
        assert(widen_file_refusal(*plan, source@, message@));
        return Err(message);
    }
    let count = body / record_size;
    let target = plan.target_record_size as u64;
    let byte_size = match count.checked_mul(target) {
        Some(product) => match product.checked_add(4) {
            Some(total) => total,
            None => {
                let message = cat2(plan.name, " target byte count overflow");
                assert(widen_file_refusal(*plan, source@, message@));
                return Err(message);
            },
        },
        None => {
            proof {
                assert(count * target <= 4 + count * target);
            }
            let message = cat2(plan.name, " target byte count overflow");
            assert(widen_file_refusal(*plan, source@, message@));
            return Err(message);
        },
    };
    assert(f.len() == 4 + size * count) by (nonlinear_arith)
        requires
            (f.len() - 4) % (size as int) == 0,
            count == (f.len() - 4) / (size as int),
            size > 0,
            f.len() >= 4,
    ;
    let mut out: Vec<u8> = Vec::new();
    push_slice(&mut out, header);
    let mut i: u64 = 0;
    while i < count
        invariant
            f == source@,
            size == plan.source_record_size,
            offs == plan.source_time_offsets@,
            size > 0,
            plan_valid(plan.source_record_size as int, plan.target_record_size as int, offs),
            f.len() == 4 + size * count,
            i <= count,
            out@ == f.subrange(0, 4) + widened_records(f, size, offs, i as nat),
            out@.len() == 4 + i * plan.target_record_size,
            4 + count * plan.target_record_size <= u64::MAX,
        decreases count - i,
    {
        assert(4 + (i + 1) * size <= f.len()) by (nonlinear_arith)
            requires
                i < count,
                f.len() == 4 + size * count,
        ;
        let total = source.len();
        assert(count <= f.len()) by (nonlinear_arith)
            requires
                f.len() == 4 + size * count,
                size >= 1,
        ;
        let iu = i as usize;
        let rs = plan.source_record_size;
        assert(4 + iu * rs + rs <= total) by (nonlinear_arith)
            requires
                iu == i,
                rs == size,
                4 + (i + 1) * size <= total,
        ;
        let start = 4 + iu * rs;
        let raw = vstd::slice::slice_subrange(source, start, start + rs);
        assert(raw@ == raw_record(Some(f), size, i as int)) by {
            assert(start == 4 + i * size);
            assert(start + rs == 4 + (i + 1) * size) by (nonlinear_arith)
                requires
                    start == 4 + i * size,
                    rs == size,
            ;
        }
        let widened = match widen_time_record(raw, plan) {
            Ok(w) => w,
            Err(e) => {
                assert(false);
                return Err(e);
            },
        };
        push_slice(&mut out, widened.as_slice());
        proof {
            assert(out@ =~= f.subrange(0, 4) + widened_records(f, size, offs, (i + 1) as nat));
            assert(4 + (i + 1) * plan.target_record_size == 4 + i * plan.target_record_size
                + plan.target_record_size) by (nonlinear_arith);
        }
        i = i + 1;
    }
    let digest = sha256_digest(out.as_slice());
    let manifest = GenerationFileManifest {
        relative_path: cat2("local/", plan.name),
        byte_size,
        sha256: hex_lower(&digest),
        record_count: Some(count),
    };
    Ok((out, manifest))
}

/// Record size of the tables that an upgrade copies unchanged but still
/// counts.
pub open spec fn copied_record_size(name: Seq<char>) -> Option<u64> {
    if name == "task_change_index.bin"@ || name == "task_land_index.bin"@ || name
        == "change_land_index.bin"@ || name == "stash.bin"@ {
        Some(8)
    } else if name == "plan_item.bin"@ || name == "object_pack_member.bin"@ {
        Some(16)
    } else if name == "tree.bin"@ {
        Some(20)
    } else {
        None
    }
}

/// The record count of a copied fixed-record file below `local/`; `None`
/// for any other file. Fails when the file is shorter than its header or
/// not a whole number of records.
pub fn target_record_count(relative_path: &str, byte_size: u64) -> (r: Result<Option<u64>, String>)
    ensures
        match spec_strip_prefix(relative_path@, "local/"@) {
            None => r == Ok::<Option<u64>, String>(None),
            Some(name) => match copied_record_size(name) {
                None => r == Ok::<Option<u64>, String>(None),
                Some(size) => {
                    &&& r is Ok <==> byte_size >= 4 && (byte_size - 4) % (size as int) == 0
                    &&& r matches Ok(n) ==> n == Some(((byte_size - 4) / (size as int)) as u64)
                    &&& byte_size < 4 ==> (r matches Err(e) ==> e@ == relative_path@
                        + " is shorter than its layout header"@)
                    &&& byte_size >= 4 && (byte_size - 4) % (size as int) != 0 ==> (r matches Err(
                        e,
                    ) ==> e@ == relative_path@ + " is misaligned for "@ + spec_decimal(size as nat)
                        + "-byte records"@)
                },
            },
        },
{
    let path = chars_of(relative_path);
    let name = match strip_prefix_chars(&path, "local/") {
        Some(name) => name,
        None => return Ok(None),
    };
    let record_size: u64 = if chars_eq_str(&name, "task_change_index.bin") || chars_eq_str(
        &name,
        "task_land_index.bin",
    ) || chars_eq_str(&name, "change_land_index.bin") || chars_eq_str(&name, "stash.bin") {
        8
    } else if chars_eq_str(&name, "plan_item.bin") || chars_eq_str(&name, "object_pack_member.bin") {
        16
    } else if chars_eq_str(&name, "tree.bin") {
        20
    } else {
        return Ok(None);
    };
    if byte_size < 4 {
        let mut v = chars_of(relative_path);
        push_str(&mut v, " is shorter than its layout header");
        return Err(string_from_chars(&v));
    }
    let body = byte_size - 4;
    if body % record_size != 0 {
        let mut v = chars_of(relative_path);
        push_str(&mut v, " is misaligned for ");
        push_decimal(&mut v, record_size);
        push_str(&mut v, "-byte records");
        return Err(string_from_chars(&v));
    }
    Ok(Some(body / record_size))
}

/// What a u64-second upgrade is asked to do; paths are given as text.
#[derive(Clone, Debug, PartialEq, Eq)]
pub struct StageBinaryDbU64SecondUpgradeOptions {
    pub repo_root: String,
    pub output_root: String,
    pub source_time_width: String,
}

/// What a u64-second upgrade staged.
#[derive(Clone, Debug, PartialEq, Eq)]
pub struct StageBinaryDbU64SecondUpgradeReport {
    pub output_root: String,
    pub repo_name: String,
    pub source_time_width: String,
    pub target_time_width: String,
    pub source_authority_fingerprint: String,
    pub content_fingerprint: String,
    pub converted_file_count: usize,
    pub rebuilt_index_file_count: usize,
    pub copied_file_count: usize,
    pub source_bytes: u64,
    pub target_bytes: u64,
}

} // verus!
