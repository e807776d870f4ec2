//! The division of captured tree packs among validation workers: packs are
//! taken heaviest first and each goes to the worker with the fewest trees so
//! far, so that the workers' loads stay balanced.

use vstd::prelude::*;

use crate::read::BinaryTreePackView;

verus! {

/// `a` is taken before `b`: it holds more trees, or as many and has the
/// lower pack index.
pub open spec fn heavier_first(a: BinaryTreePackView, b: BinaryTreePackView) -> bool {
    a.record.tree_count > b.record.tree_count || (a.record.tree_count == b.record.tree_count
        && a.tree_pack_index < b.tree_pack_index)
}

/// `p` placed into `sorted` after every pack that it is not taken before.
pub open spec fn insert_heavier_first(sorted: Seq<BinaryTreePackView>, p: BinaryTreePackView) -> Seq<
    BinaryTreePackView,
>
    decreases sorted.len(),
{
    if sorted.len() == 0 {
        seq![p]
    } else if heavier_first(p, sorted[0]) {
        seq![p] + sorted
    } else {
        seq![sorted[0]] + insert_heavier_first(sorted.drop_first(), p)
    }
}

/// The packs heaviest first; packs that tie keep their order.
pub open spec fn sort_heavier_first(packs: Seq<BinaryTreePackView>) -> Seq<BinaryTreePackView>
    decreases packs.len(),
{
    if packs.len() == 0 {
        Seq::empty()
    } else {
        insert_heavier_first(sort_heavier_first(packs.drop_last()), packs.last())
    }
}

/// `p` placed into `sorted` after every pack whose index is not above its own.
pub open spec fn insert_by_index(sorted: Seq<BinaryTreePackView>, p: BinaryTreePackView) -> Seq<
    BinaryTreePackView,
>
    decreases sorted.len(),
{
    if sorted.len() == 0 {
        seq![p]
    } else if p.tree_pack_index < sorted[0].tree_pack_index {
        seq![p] + sorted
    } else {
        seq![sorted[0]] + insert_by_index(sorted.drop_first(), p)
    }
}

/// The packs by ascending pack index; packs that tie keep their order.
pub open spec fn sort_by_index(packs: Seq<BinaryTreePackView>) -> Seq<BinaryTreePackView>
    decreases packs.len(),
{
    if packs.len() == 0 {
        Seq::empty()
    } else {
        insert_by_index(sort_by_index(packs.drop_last()), packs.last())
    }
}

/// The first worker with the smallest total.
pub open spec fn lightest(totals: Seq<u64>) -> int
    decreases totals.len(),
{
    if totals.len() <= 1 {
        0
    } else {
        let k = lightest(totals.drop_last());
        if totals.last() < totals[k] {
            totals.len() - 1
        } else {
            k
        }
    }
}

/// `total + count`, or `u64::MAX` when that does not fit.
pub open spec fn saturating_total(total: u64, count: u32) -> u64 {
    if total + count > u64::MAX {
        u64::MAX
    } else {
        (total + count) as u64
    }
}

/// The batches and tree totals of `workers` workers after the packs, in
/// order, each went to the lightest worker.
pub open spec fn assign(packs: Seq<BinaryTreePackView>, workers: nat) -> (
    Seq<Seq<BinaryTreePackView>>,
    Seq<u64>,
)
    decreases packs.len(),
{
    if packs.len() == 0 {
        (Seq::new(workers, |i: int| Seq::empty()), Seq::new(workers, |i: int| 0u64))
    } else {
        let (batches, totals) = assign(packs.drop_last(), workers);
        let p = packs.last();
        let k = lightest(totals);
        (
            batches.update(k, batches[k].push(p)),
            totals.update(k, saturating_total(totals[k], p.record.tree_count)),
        )
    }
}

/// The number of workers for `n` packs and `jobs` jobs: as many as there
/// are jobs, but no more than there are packs, and at least one.
pub open spec fn worker_count(jobs: nat, n: nat) -> nat {
    if jobs < n {
        if jobs == 0 {
            1
        } else {
            jobs
        }
    } else if n == 0 {
        1
    } else {
        n
    }
}

/// The validation batches: none for no packs; otherwise one per worker,
/// each holding the packs it was given in ascending pack index.
pub open spec fn spec_balanced_batches(packs: Seq<BinaryTreePackView>, jobs: nat) -> Seq<
    Seq<BinaryTreePackView>,
> {
    if packs.len() == 0 {
        Seq::empty()
    } else {
        let w = worker_count(jobs, packs.len());
        let batches = assign(sort_heavier_first(packs), w).0;
        Seq::new(w, |i: int| sort_by_index(batches[i]))
    }
}

fn copy_pack_view(p: &BinaryTreePackView) -> (r: BinaryTreePackView)
    ensures
        r == *p,
{
    BinaryTreePackView {
        tree_pack_index: p.tree_pack_index,
        record: p.record,
        pack_id: p.pack_id.clone(),
        pack_path: p.pack_path.clone(),
        pack_format: p.pack_format.clone(),
    }
}

proof fn lemma_insert_heavier_first_at(sorted: Seq<BinaryTreePackView>, p: BinaryTreePackView, j: int)
    requires
        0 <= j <= sorted.len(),
        forall|k: int| 0 <= k < j ==> !heavier_first(p, #[trigger] sorted[k]),
        j < sorted.len() ==> heavier_first(p, sorted[j]),
    ensures
        insert_heavier_first(sorted, p) == sorted.insert(j, p),
    decreases sorted.len(),
{
    if sorted.len() == 0 {
        assert(sorted.insert(j, p) =~= seq![p]);
    } else if j == 0 {
        assert(sorted.insert(0, p) =~= seq![p] + sorted);
    } else {
        let rest = sorted.drop_first();
        assert(!heavier_first(p, sorted[0]));
        assert forall|k: int| 0 <= k < j - 1 implies !heavier_first(p, #[trigger] rest[k]) by {
            assert(rest[k] == sorted[k + 1]);
        }
        if j - 1 < rest.len() {
            assert(rest[j - 1] == sorted[j]);
        }
        lemma_insert_heavier_first_at(rest, p, j - 1);
        assert(seq![sorted[0]] + rest.insert(j - 1, p) =~= sorted.insert(j, p));
    }
}

proof fn lemma_insert_by_index_at(sorted: Seq<BinaryTreePackView>, p: BinaryTreePackView, j: int)
    requires
        0 <= j <= sorted.len(),
        forall|k: int| 0 <= k < j ==> !(p.tree_pack_index < #[trigger] sorted[k].tree_pack_index),
        j < sorted.len() ==> p.tree_pack_index < sorted[j].tree_pack_index,
    ensures
        insert_by_index(sorted, p) == sorted.insert(j, p),
    decreases sorted.len(),
{
    if sorted.len() == 0 {
        assert(sorted.insert(j, p) =~= seq![p]);
    } else if j == 0 {
        assert(sorted.insert(0, p) =~= seq![p] + sorted);
    } else {
        let rest = sorted.drop_first();
        assert forall|k: int| 0 <= k < j - 1 implies !(p.tree_pack_index
            < #[trigger] rest[k].tree_pack_index) by {
            assert(rest[k] == sorted[k + 1]);
        }
        if j - 1 < rest.len() {
            assert(rest[j - 1] == sorted[j]);
        }
        lemma_insert_by_index_at(rest, p, j - 1);
        assert(seq![sorted[0]] + rest.insert(j - 1, p) =~= sorted.insert(j, p));
    }
}

fn sorted_heavier_first(packs: &Vec<BinaryTreePackView>) -> (r: Vec<BinaryTreePackView>)
    ensures
        r@ == sort_heavier_first(packs@),
{
    let ghost ps = packs@;
    let mut sorted: Vec<BinaryTreePackView> = Vec::new();
    let mut k: usize = 0;
    assert(ps.subrange(0, 0) =~= Seq::<BinaryTreePackView>::empty());
    while k < packs.len()
        invariant
            ps == packs@,
            k <= ps.len(),
            sorted@ == sort_heavier_first(ps.subrange(0, k as int)),
        decreases ps.len() - k,
    {
        let p = copy_pack_view(&packs[k]);
        let mut j: usize = 0;
        while j < sorted.len() && !(p.record.tree_count > sorted[j].record.tree_count || (
        p.record.tree_count == sorted[j].record.tree_count && p.tree_pack_index
            < sorted[j].tree_pack_index))
            invariant
                j <= sorted@.len(),
                forall|m: int| 0 <= m < j ==> !heavier_first(p, #[trigger] sorted@[m]),
            decreases sorted@.len() - j,
        {
            j = j + 1;
        }
        proof {
            lemma_insert_heavier_first_at(sorted@, p, j as int);
            let q = ps.subrange(0, k + 1);
            assert(q.drop_last() =~= ps.subrange(0, k as int));
            assert(q.last() == ps[k as int]);
        }
        sorted.insert(j, p);
        k = k + 1;
    }
    assert(ps.subrange(0, ps.len() as int) =~= ps);
    sorted
}

fn sorted_by_index(packs: &Vec<BinaryTreePackView>) -> (r: Vec<BinaryTreePackView>)
    ensures
        r@ == sort_by_index(packs@),
{
    let ghost ps = packs@;
    let mut sorted: Vec<BinaryTreePackView> = Vec::new();
    let mut k: usize = 0;
    assert(ps.subrange(0, 0) =~= Seq::<BinaryTreePackView>::empty());
    while k < packs.len()
        invariant
            ps == packs@,
            k <= ps.len(),
            sorted@ == sort_by_index(ps.subrange(0, k as int)),
        decreases ps.len() - k,
    {
        let p = copy_pack_view(&packs[k]);
        let mut j: usize = 0;
        while j < sorted.len() && !(p.tree_pack_index < sorted[j].tree_pack_index)
            invariant
                j <= sorted@.len(),
                forall|m: int| 0 <= m < j ==> !(p.tree_pack_index < #[trigger] sorted@[m].tree_pack_index),
            decreases sorted@.len() - j,
        {
            j = j + 1;
        }
        proof {
            lemma_insert_by_index_at(sorted@, p, j as int);
            let q = ps.subrange(0, k + 1);
            assert(q.drop_last() =~= ps.subrange(0, k as int));
            assert(q.last() == ps[k as int]);
        }
        sorted.insert(j, p);
        k = k + 1;
    }
    assert(ps.subrange(0, ps.len() as int) =~= ps);
    sorted
}

fn lightest_worker(totals: &Vec<u64>) -> (k: usize)
    requires
        totals@.len() > 0,
    ensures
        k == lightest(totals@),
        k < totals@.len(),
{
    let ghost ts = totals@;
    let mut k: usize = 0;
    let mut i: usize = 1;
    assert(lightest(ts.subrange(0, 1)) == 0);
    while i < totals.len()
        invariant
            ts == totals@,
            1 <= i <= ts.len(),
            k < i,
            k == lightest(ts.subrange(0, i as int)),
        decreases ts.len() - i,
    {
        proof {
            let q = ts.subrange(0, i + 1);
            assert(q.drop_last() =~= ts.subrange(0, i as int));
            assert(q.last() == ts[i as int]);
            assert(q[k as int] == ts[k as int]);
        }
        if totals[i] < totals[k] {
            k = i;
        }
        i = i + 1;
    }
    assert(ts.subrange(0, ts.len() as int) =~= ts);
    k
}

/// Divides the tree packs among at most `jobs` validation workers (at
/// least one): heaviest packs first, each to the worker with the fewest
/// trees so far (the first such worker on a tie), and each worker's batch
/// then in ascending pack index. No packs give no batches.
pub fn balanced_tree_pack_batches(packs: Vec<BinaryTreePackView>, jobs: usize) -> (r: Vec<
    Vec<BinaryTreePackView>,
>)
    ensures
        r@.len() == spec_balanced_batches(packs@, jobs as nat).len(),
        forall|i: int| 0 <= i < r@.len() ==> (#[trigger] r@[i])@ == spec_balanced_batches(
            packs@,
            jobs as nat,
        )[i],
{
    if packs.len() == 0 {
        return Vec::new();
    }
    let workers: usize = if jobs < packs.len() {
        if jobs == 0 {
            1
        } else {
            jobs
        }
    } else {
        packs.len()
    };
    let ghost w = workers as nat;
    let sorted = sorted_heavier_first(&packs);
    let ghost ss = sorted@;
    let mut batches: Vec<Vec<BinaryTreePackView>> = Vec::new();
    let mut totals: Vec<u64> = Vec::new();
    let mut b: usize = 0;
    while b < workers
        invariant
            b <= workers,
            batches@.len() == b,
            totals@.len() == b,
            forall|i: int| 0 <= i < b ==> (#[trigger] batches@[i])@ == Seq::<BinaryTreePackView>::empty(),
            forall|i: int| 0 <= i < b ==> #[trigger] totals@[i] == 0,
        decreases workers - b,
    {
        batches.push(Vec::new());
        totals.push(0);
        b = b + 1;
    }
    proof {
        let a = assign(ss.subrange(0, 0), w);
        assert(ss.subrange(0, 0) =~= Seq::<BinaryTreePackView>::empty());
        assert(totals@ =~= a.1);
    }
    let mut n: usize = 0;
    while n < sorted.len()
        invariant
            ss == sorted@,
            w == workers,
            workers >= 1,
            n <= ss.len(),
            batches@.len() == w,
            totals@ == assign(ss.subrange(0, n as int), w).1,
            assign(ss.subrange(0, n as int), w).0.len() == w,
            forall|i: int|
                0 <= i < w ==> (#[trigger] batches@[i])@ == assign(ss.subrange(0, n as int), w).0[i],
        decreases ss.len() - n,
    {
        let ghost before = assign(ss.subrange(0, n as int), w);
        proof {
            let q = ss.subrange(0, n + 1);
            assert(q.drop_last() =~= ss.subrange(0, n as int));
            assert(q.last() == ss[n as int]);
            lemma_assign_lengths(ss.subrange(0, n as int), w);
        }
        let k = lightest_worker(&totals);
        let p = copy_pack_view(&sorted[n]);
        let count = p.record.tree_count as u64;
        let total = totals[k];
        let next = if total > u64::MAX - count {
            u64::MAX
        } else {
            total + count
        };
        totals.set(k, next);
        let mut batch = batches.remove(k);
        batch.push(p);
        batches.insert(k, batch);
        proof {
            let after = assign(ss.subrange(0, n + 1), w);
            assert(totals@ =~= after.1);
            assert forall|i: int| 0 <= i < w implies (#[trigger] batches@[i])@ == after.0[i] by {
                if i < k {
                } else if i == k {
                } else {
                }
            }
        }
        n = n + 1;
    }
    assert(ss.subrange(0, ss.len() as int) =~= ss);
    let mut out: Vec<Vec<BinaryTreePackView>> = Vec::new();
    let mut i: usize = 0;
    while i < workers
        invariant
            ss == sorted@,
            ss == sort_heavier_first(packs@),
            w == workers,
            i <= w,
            batches@.len() == w,
            forall|t: int| 0 <= t < w ==> (#[trigger] batches@[t])@ == assign(ss, w).0[t],
            out@.len() == i,
            forall|t: int|
                0 <= t < i ==> (#[trigger] out@[t])@ == sort_by_index(assign(ss, w).0[t]),
        decreases w - i,
    {
        let s = sorted_by_index(&batches[i]);
        out.push(s);
        i = i + 1;
    }
    out
}

proof fn lemma_assign_lengths(packs: Seq<BinaryTreePackView>, workers: nat)
    requires
        workers > 0,
    ensures
        assign(packs, workers).0.len() == workers,
        assign(packs, workers).1.len() == workers,
        0 <= lightest(assign(packs, workers).1) < workers,
    decreases packs.len(),
{
    if packs.len() > 0 {
        lemma_assign_lengths(packs.drop_last(), workers);
    }
    lemma_lightest_in_range(assign(packs, workers).1);
}

proof fn lemma_lightest_in_range(totals: Seq<u64>)
    requires
        totals.len() > 0,
    ensures
        0 <= lightest(totals) < totals.len(),
    decreases totals.len(),
{
    if totals.len() > 1 {
        lemma_lightest_in_range(totals.drop_last());
    }
}

// ----- every pack in exactly one batch -------------------------------------------

/// How often `x` occurs in `s`.
pub open spec fn occurrences<T>(s: Seq<T>, x: T) -> nat
    decreases s.len(),
{
    if s.len() == 0 {
        0
    } else {
        occurrences(s.drop_last(), x) + if s.last() == x {
            1nat
        } else {
            0nat
        }
    }
}

/// How often `x` occurs across all the batches.
pub open spec fn total_occurrences<T>(batches: Seq<Seq<T>>, x: T) -> nat
    decreases batches.len(),
{
    if batches.len() == 0 {
        0
    } else {
        total_occurrences(batches.drop_last(), x) + occurrences(batches.last(), x)
    }
}

proof fn lemma_occurrences_prepend<T>(p: T, s: Seq<T>, x: T)
    ensures
        occurrences(seq![p] + s, x) == occurrences(s, x) + if p == x {
            1nat
        } else {
            0nat
        },
    decreases s.len(),
{
    let t = seq![p] + s;
    let one: nat = if p == x {
        1nat
    } else {
        0nat
    };
    if s.len() == 0 {
        assert(t.drop_last() =~= Seq::<T>::empty());
        assert(t.last() == p);
        assert(occurrences(t.drop_last(), x) == 0);
        assert(occurrences(s, x) == 0);
        assert(occurrences(t, x) == one);
    } else {
        assert(t.drop_last() =~= seq![p] + s.drop_last());
        assert(t.last() == s.last());
        lemma_occurrences_prepend(p, s.drop_last(), x);
        assert(occurrences(t.drop_last(), x) == occurrences(s.drop_last(), x) + one);
        assert(occurrences(t, x) == occurrences(t.drop_last(), x) + if s.last() == x {
            1nat
        } else {
            0nat
        });
    }
}

proof fn lemma_occurrences_split<T>(s: Seq<T>, x: T)
    requires
        s.len() > 0,
    ensures
        occurrences(s, x) == occurrences(s.drop_first(), x) + if s[0] == x {
            1nat
        } else {
            0nat
        },
{
    assert(s =~= seq![s[0]] + s.drop_first());
    lemma_occurrences_prepend(s[0], s.drop_first(), x);
}

proof fn lemma_insert_heavier_first_occurrences(sorted: Seq<BinaryTreePackView>, p: BinaryTreePackView, x: BinaryTreePackView)
    ensures
        occurrences(insert_heavier_first(sorted, p), x) == occurrences(sorted, x) + if p == x {
            1nat
        } else {
            0nat
        },
    decreases sorted.len(),
{
    if sorted.len() == 0 {
        lemma_occurrences_prepend(p, sorted, x);
        assert(seq![p] + sorted =~= seq![p]);
    } else if heavier_first(p, sorted[0]) {
        lemma_occurrences_prepend(p, sorted, x);
    } else {
        let rest = insert_heavier_first(sorted.drop_first(), p);
        lemma_insert_heavier_first_occurrences(sorted.drop_first(), p, x);
        lemma_occurrences_prepend(sorted[0], rest, x);
        lemma_occurrences_split(sorted, x);
    }
}

proof fn lemma_insert_by_index_occurrences(sorted: Seq<BinaryTreePackView>, p: BinaryTreePackView, x: BinaryTreePackView)
    ensures
        occurrences(insert_by_index(sorted, p), x) == occurrences(sorted, x) + if p == x {
            1nat
        } else {
            0nat
        },
    decreases sorted.len(),
{
    if sorted.len() == 0 {
        lemma_occurrences_prepend(p, sorted, x);
        assert(seq![p] + sorted =~= seq![p]);
    } else if p.tree_pack_index < sorted[0].tree_pack_index {
        lemma_occurrences_prepend(p, sorted, x);
    } else {
        let rest = insert_by_index(sorted.drop_first(), p);
        lemma_insert_by_index_occurrences(sorted.drop_first(), p, x);
        lemma_occurrences_prepend(sorted[0], rest, x);
        lemma_occurrences_split(sorted, x);
    }
}

proof fn lemma_sort_heavier_first_occurrences(packs: Seq<BinaryTreePackView>, x: BinaryTreePackView)
    ensures
        occurrences(sort_heavier_first(packs), x) == occurrences(packs, x),
    decreases packs.len(),
{
    if packs.len() > 0 {
        lemma_sort_heavier_first_occurrences(packs.drop_last(), x);
        lemma_insert_heavier_first_occurrences(sort_heavier_first(packs.drop_last()), packs.last(), x);
    }
}

proof fn lemma_sort_by_index_occurrences(packs: Seq<BinaryTreePackView>, x: BinaryTreePackView)
    ensures
        occurrences(sort_by_index(packs), x) == occurrences(packs, x),
    decreases packs.len(),
{
    if packs.len() > 0 {
        lemma_sort_by_index_occurrences(packs.drop_last(), x);
        lemma_insert_by_index_occurrences(sort_by_index(packs.drop_last()), packs.last(), x);
    }
}

proof fn lemma_total_after_push(batches: Seq<Seq<BinaryTreePackView>>, k: int, p: BinaryTreePackView, x: BinaryTreePackView)
    requires
        0 <= k < batches.len(),
    ensures
        total_occurrences(batches.update(k, batches[k].push(p)), x) == total_occurrences(batches, x)
            + if p == x {
            1nat
        } else {
            0nat
        },
    decreases batches.len(),
{
    let updated = batches.update(k, batches[k].push(p));
    assert(batches[k].push(p).drop_last() =~= batches[k]);
    if k == batches.len() - 1 {
        assert(updated.drop_last() =~= batches.drop_last());
    } else {
        assert(updated.drop_last() =~= batches.drop_last().update(k, batches[k].push(p)));
        lemma_total_after_push(batches.drop_last(), k, p, x);
    }
}

proof fn lemma_total_empty(workers: nat, x: BinaryTreePackView)
    ensures
        total_occurrences(Seq::new(workers, |i: int| Seq::<BinaryTreePackView>::empty()), x) == 0,
    decreases workers,
{
    if workers > 0 {
        let bs = Seq::new(workers, |i: int| Seq::<BinaryTreePackView>::empty());
        assert(bs.drop_last() =~= Seq::new((workers - 1) as nat, |i: int| Seq::<BinaryTreePackView>::empty()));
        lemma_total_empty((workers - 1) as nat, x);
    }
}

proof fn lemma_assign_occurrences(packs: Seq<BinaryTreePackView>, workers: nat, x: BinaryTreePackView)
    requires
        workers > 0,
    ensures
        total_occurrences(assign(packs, workers).0, x) == occurrences(packs, x),
    decreases packs.len(),
{
    if packs.len() == 0 {
        lemma_total_empty(workers, x);
    } else {
        lemma_assign_occurrences(packs.drop_last(), workers, x);
        lemma_assign_lengths(packs.drop_last(), workers);
        let (batches, totals) = assign(packs.drop_last(), workers);
        lemma_total_after_push(batches, lightest(totals), packs.last(), x);
    }
}

proof fn lemma_total_of_sorted(batches: Seq<Seq<BinaryTreePackView>>, x: BinaryTreePackView)
    ensures
        total_occurrences(Seq::new(batches.len(), |i: int| sort_by_index(batches[i])), x)
            == total_occurrences(batches, x),
    decreases batches.len(),
{
    if batches.len() > 0 {
        let sorted = Seq::new(batches.len(), |i: int| sort_by_index(batches[i]));
        let shorter = batches.drop_last();
        assert(sorted.drop_last() =~= Seq::new(shorter.len(), |i: int| sort_by_index(shorter[i])));
        lemma_total_of_sorted(shorter, x);
        lemma_sort_by_index_occurrences(batches.last(), x);
    }
}

/// Every pack lands in exactly one batch: each pack occurs across the
/// batches exactly as often as among the packs given, and there is one
/// batch per worker whenever there are packs.
pub proof fn law_batches_partition_the_packs(packs: Seq<BinaryTreePackView>, jobs: nat)
    ensures
        packs.len() > 0 ==> spec_balanced_batches(packs, jobs).len() == worker_count(jobs, packs.len()),
        forall|x: BinaryTreePackView|
            total_occurrences(#[trigger] spec_balanced_batches(packs, jobs), x) == occurrences(packs, x),
{
    assert forall|x: BinaryTreePackView|
        total_occurrences(#[trigger] spec_balanced_batches(packs, jobs), x) == occurrences(packs, x) by {
        if packs.len() == 0 {
            assert(occurrences(packs, x) == 0);
        } else {
            let w = worker_count(jobs, packs.len());
            let sorted = sort_heavier_first(packs);
            lemma_sort_heavier_first_occurrences(packs, x);
            lemma_assign_occurrences(sorted, w, x);
            lemma_assign_lengths(sorted, w);
            lemma_total_of_sorted(assign(sorted, w).0, x);
        }
    }
}

} // verus!
