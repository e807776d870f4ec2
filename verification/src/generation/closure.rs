//! Cross-record rules of a canonical generation: dense pack ranges, member
//! back-references and the snapshot parent graph.

use vstd::prelude::*;

use crate::schema::records::{
    plus_one_index, BinaryBlobRecord, BinaryObjectPackMemberRecord, BinaryObjectPackRecord,
    BinarySnapshotRecord,
};
use crate::text::{owned, chars_of, push_decimal, push_str, spec_decimal, string_from_chars, text_with_number};

verus! {

// ----- the snapshot parent graph -----------------------------------------

/// The parent lists of a snapshot graph as sequences.
pub open spec fn graph_of(parents: Seq<Vec<u32>>) -> Seq<Seq<u32>> {
    Seq::new(parents.len(), |i: int| parents[i]@)
}

/// `v` is one of the parents of `u`.
pub open spec fn is_edge(g: Seq<Seq<u32>>, u: int, v: int) -> bool {
    0 <= u < g.len() && exists|k: int| 0 <= k < g[u].len() && g[u][k] == v
}

/// Step `i` of `path` follows an edge of the graph.
pub open spec fn walk_step(g: Seq<Seq<u32>>, path: Seq<int>, i: int) -> bool {
    is_edge(g, path[i], path[i + 1])
}

/// A closed walk of at least one edge.
pub open spec fn is_cycle(g: Seq<Seq<u32>>, path: Seq<int>) -> bool {
    &&& path.len() >= 2
    &&& path[0] == path.last()
    &&& forall|i: int| 0 <= i < path.len() - 1 ==> #[trigger] walk_step(g, path, i)
}

/// The error of a parent graph with a cycle: the message names a snapshot
/// that a cycle of the graph passes through.
pub open spec fn cycle_error(g: Seq<Seq<u32>>, e: Seq<char>) -> bool {
    exists|path: Seq<int>|
        #[trigger] is_cycle(g, path) && e
            == "Binary DB content closure snapshot parent graph contains a cycle at snapshot "@
            + spec_decimal(path.last() as nat) + "."@
}

pub open spec fn has_cycle(g: Seq<Seq<u32>>) -> bool {
    exists|path: Seq<int>| is_cycle(g, path)
}

/// Every parent index names a snapshot of the graph.
pub open spec fn parents_in_range(g: Seq<Seq<u32>>) -> bool {
    forall|u: int, k: int| 0 <= u < g.len() && 0 <= k < g[u].len() ==> #[trigger] g[u][k] < g.len()
}

/// `rank` strictly decreases along every edge.
pub open spec fn ranked(g: Seq<Seq<u32>>, rank: Seq<int>) -> bool {
    &&& rank.len() == g.len()
    &&& forall|u: int, k: int|
        0 <= u < g.len() && 0 <= k < g[u].len() ==> rank[#[trigger] g[u][k] as int] < rank[u]
}

proof fn lemma_ranked_acyclic(g: Seq<Seq<u32>>, rank: Seq<int>)
    requires
        ranked(g, rank),
        parents_in_range(g),
    ensures
        !has_cycle(g),
{
    assert forall|path: Seq<int>| !is_cycle(g, path) by {
        if is_cycle(g, path) {
            assert forall|i: int| 0 <= i < path.len() implies 0 <= #[trigger] path[i] < g.len()
                && rank[path[i]] <= rank[path[0]] - i by {
                lemma_rank_walk(g, rank, path, i);
            }
            let last = path.len() - 1;
            assert(rank[path[last]] <= rank[path[0]] - last);
        }
    }
}

proof fn lemma_rank_walk(g: Seq<Seq<u32>>, rank: Seq<int>, path: Seq<int>, i: int)
    requires
        ranked(g, rank),
        parents_in_range(g),
        is_cycle(g, path),
        0 <= i < path.len(),
    ensures
        0 <= path[i] < g.len(),
        rank[path[i]] <= rank[path[0]] - i,
    decreases i,
{
    if i == 0 {
        assert(walk_step(g, path, 0));
    } else {
        lemma_rank_walk(g, rank, path, i - 1);
        assert(walk_step(g, path, i - 1));
        let k = choose|k: int| 0 <= k < g[path[i - 1]].len() && #[trigger] g[path[i - 1]][k] == path[i];
        assert(g[path[i - 1]][k] < g.len());
    }
}

pub open spec fn white_count(s: Seq<u8>) -> nat
    decreases s.len(),
{
    if s.len() == 0 {
        0
    } else {
        white_count(s.drop_last()) + if s.last() == 0 {
            1nat
        } else {
            0nat
        }
    }
}

proof fn lemma_white_count_le(a: Seq<u8>, b: Seq<u8>)
    requires
        a.len() == b.len(),
        forall|i: int| 0 <= i < a.len() && b[i] == 0 ==> a[i] == 0,
    ensures
        white_count(b) <= white_count(a),
    decreases a.len(),
{
    if a.len() > 0 {
        lemma_white_count_le(a.drop_last(), b.drop_last());
    }
}

proof fn lemma_white_count_mark(a: Seq<u8>, i: int, v: u8)
    requires
        0 <= i < a.len(),
        a[i] == 0,
        v != 0,
    ensures
        white_count(a.update(i, v)) + 1 == white_count(a),
    decreases a.len(),
{
    let b = a.update(i, v);
    if i == a.len() - 1 {
        assert(b.drop_last() =~= a.drop_last());
    } else {
        lemma_white_count_mark(a.drop_last(), i, v);
        assert(b.drop_last() =~= a.drop_last().update(i, v));
    }
}

proof fn lemma_white_count_bound(a: Seq<u8>)
    ensures
        white_count(a) <= a.len(),
    decreases a.len(),
{
    if a.len() > 0 {
        lemma_white_count_bound(a.drop_last());
    }
}

/// Depth-first search state: grey nodes are exactly the current stack,
/// which is a walk, and black nodes only have black parents finished
/// earlier.
pub open spec fn dfs_state_ok(
    g: Seq<Seq<u32>>,
    states: Seq<u8>,
    stack: Seq<int>,
    finish: Seq<int>,
    counter: int,
) -> bool {
    &&& states.len() == g.len()
    &&& finish.len() == g.len()
    &&& forall|v: int| 0 <= v < g.len() ==> #[trigger] states[v] <= 2
    &&& forall|v: int| 0 <= v < g.len() ==> (#[trigger] states[v] == 1 <==> stack.contains(v))
    &&& forall|i: int| 0 <= i < stack.len() ==> 0 <= #[trigger] stack[i] < g.len()
    &&& forall|i: int| 0 <= i < stack.len() - 1 ==> #[trigger] walk_step(g, stack, i)
    &&& forall|v: int, k: int|
        0 <= v < g.len() && 0 <= k < g[v].len() && states[v] == 2 ==> states[#[trigger] g[v][k]
            as int] == 2 && finish[g[v][k] as int] < finish[v]
    &&& forall|v: int| 0 <= v < g.len() && states[v] == 2 ==> #[trigger] finish[v] < counter
}

fn visit_snapshot_parent_graph(
    index: usize,
    parents: &[Vec<u32>],
    states: &mut Vec<u8>,
    Ghost(stack): Ghost<Seq<int>>,
    Ghost(finish): Ghost<Seq<int>>,
    Ghost(counter): Ghost<int>,
    Ghost(fuel): Ghost<nat>,
) -> (r: (Result<(), String>, Ghost<Seq<int>>, Ghost<int>))
    requires
        index < parents@.len(),
        parents_in_range(graph_of(parents@)),
        dfs_state_ok(graph_of(parents@), old(states)@, stack, finish, counter),
        stack.len() > 0 ==> is_edge(graph_of(parents@), stack.last(), index as int),
        fuel >= white_count(old(states)@),
    ensures
        r.0 is Err ==> has_cycle(graph_of(parents@)),
        r.0 matches Err(e) ==> cycle_error(graph_of(parents@), e@),
        r.0 is Ok ==> {
            let g = graph_of(parents@);
            let s = final(states)@;
            &&& dfs_state_ok(g, s, stack, r.1@, r.2@)
            &&& s[index as int] == 2
            &&& forall|v: int| 0 <= v < g.len() ==> (#[trigger] s[v] == 1 <==> old(states)@[v] == 1)
            &&& forall|v: int| 0 <= v < g.len() && old(states)@[v] == 2 ==> #[trigger] s[v] == 2
                && r.1@[v] == finish[v]
            &&& forall|v: int| 0 <= v < g.len() && old(states)@[v] != 0 ==> #[trigger] s[v] != 0
            &&& r.2@ >= counter
        },
    decreases fuel,
{
    let ghost g = graph_of(parents@);
    if states[index] == 2 {
        return (Ok(()), Ghost(finish), Ghost(counter));
    }
    if states[index] == 1 {
        let message = text_with_number(
            "Binary DB content closure snapshot parent graph contains a cycle at snapshot ",
            index as u64,
            ".",
        );
        proof {
            let j = choose|j: int| 0 <= j < stack.len() && stack[j] == index as int;
            let path = stack.subrange(j, stack.len() as int).push(index as int);
            assert(is_cycle(g, path)) by {
                assert forall|i: int| 0 <= i < path.len() - 1 implies #[trigger] walk_step(
                    g,
                    path,
                    i,
                ) by {
                    if i < path.len() - 2 {
                        assert(walk_step(g, stack, j + i));
                    }
                }
            }
            assert(path.last() == index as int);
        }
        return (Err(message), Ghost(finish), Ghost(counter));
    }
    proof {
        lemma_white_count_mark(states@, index as int, 1);
    }
    states.set(index, 1);
    let ghost stack2 = stack.push(index as int);
    let ghost mut fin = finish;
    let ghost mut cnt = counter;
    assert(dfs_state_ok(g, states@, stack2, fin, cnt)) by {
        assert forall|i: int| 0 <= i < stack2.len() - 1 implies #[trigger] walk_step(g, stack2, i) by {
            if i < stack.len() - 1 {
                assert(walk_step(g, stack, i));
            }
        }
        assert forall|v: int, k: int|
            0 <= v < g.len() && 0 <= k < g[v].len() && states@[v] == 2 implies states@[
            #[trigger] g[v][k] as int] == 2 && fin[g[v][k] as int] < fin[v] by {
            assert(old(states)@[v] == 2);
        }
        assert forall|v: int| 0 <= v < g.len() implies (#[trigger] states@[v] == 1
            <==> stack2.contains(v)) by {
            if v == index {
                assert(stack2[stack.len() as int] == v);
            } else if stack.contains(v) {
                let j = choose|j: int| 0 <= j < stack.len() && stack[j] == v;
                assert(stack2[j] == v);
            } else if stack2.contains(v) {
                let j = choose|j: int| 0 <= j < stack2.len() && stack2[j] == v;
                assert(stack[j] == v);
            }
        }
    }
    let ghost states_gray = states@;
    let list = &parents[index];
    let mut i: usize = 0;
    while i < list.len()
        invariant
            g == graph_of(parents@),
            parents_in_range(g),
            index < g.len(),
            list@ == g[index as int],
            i <= list.len(),
            dfs_state_ok(g, states@, stack2, fin, cnt),
            stack2 == stack.push(index as int),
            states@[index as int] == 1,
            forall|k: int| 0 <= k < i ==> states@[#[trigger] list@[k] as int] == 2 && fin[list@[k] as int] < cnt,
            forall|v: int| 0 <= v < g.len() ==> (#[trigger] states@[v] == 1 <==> states_gray[v] == 1),
            forall|v: int| 0 <= v < g.len() && old(states)@[v] == 2 ==> #[trigger] states@[v] == 2
                && fin[v] == finish[v],
            forall|v: int| 0 <= v < g.len() && states_gray[v] != 0 ==> #[trigger] states@[v] != 0,
            forall|v: int| 0 <= v < g.len() && old(states)@[v] != 0 ==> #[trigger] states_gray[v] != 0,
            states_gray.len() == g.len(),
            white_count(states_gray) + 1 <= fuel,
            cnt >= counter,
        decreases list.len() - i,
    {
        let parent = list[i] as usize;
        assert(parent < g.len()) by {
            assert(g[index as int][i as int] == list@[i as int]);
        }
        proof {
            lemma_white_count_le(states_gray, states@);
            assert(is_edge(g, stack2.last(), parent as int)) by {
                assert(g[index as int][i as int] == parent);
            }
        }
        let ghost before = states@;
        let (res, Ghost(fin2), Ghost(cnt2)) = visit_snapshot_parent_graph(
            parent,
            parents,
            states,
            Ghost(stack2),
            Ghost(fin),
            Ghost(cnt),
            Ghost((fuel - 1) as nat),
        );
        if res.is_err() {
            return (res, Ghost(fin2), Ghost(cnt2));
        }
        proof {
            fin = fin2;
            cnt = cnt2;
        }
        i = i + 1;
    }
    let ghost fin_done = fin.update(index as int, cnt);
    proof {
        let s_before = states@;
        assert forall|v: int, k: int|
            0 <= v < g.len() && 0 <= k < g[v].len() && s_before.update(index as int, 2)[v] == 2 implies
            s_before.update(index as int, 2)[#[trigger] g[v][k] as int] == 2 && fin_done[g[v][k] as int]
            < fin_done[v] by {
            if v == index {
                assert(list@[k] == g[v][k]);
                assert(s_before[list@[k] as int] == 2);
            } else {
                assert(s_before[v] == 2);
            }
        }
    }
    states.set(index, 2);
    proof {
        assert forall|v: int| 0 <= v < g.len() implies (#[trigger] states@[v] == 1 <==> stack.contains(v))
            by {
            if v != index && stack2.contains(v) {
                let j = choose|j: int| 0 <= j < stack2.len() && stack2[j] == v;
                assert(j < stack.len());
                assert(stack[j] == v);
            }
            if stack.contains(v) {
                let j = choose|j: int| 0 <= j < stack.len() && stack[j] == v;
                assert(stack2[j] == v);
                if v == index {
                    assert(old(states)@[v] == 1);
                }
            }
        }
    }
    (Ok(()), Ghost(fin_done), Ghost(cnt + 1))
}

/// Fails exactly when the snapshot parent graph has a cycle.
pub fn validate_snapshot_parent_graph(parents: &[Vec<u32>]) -> (r: Result<(), String>)
    requires
        parents_in_range(graph_of(parents@)),
    ensures
        r is Ok <==> !has_cycle(graph_of(parents@)),
        r matches Err(e) ==> cycle_error(graph_of(parents@), e@),
{
    let ghost g = graph_of(parents@);
    let n = parents.len();
    let mut states: Vec<u8> = Vec::new();
    let mut j: usize = 0;
    while j < n
        invariant
            j <= n == parents@.len(),
            states@.len() == j,
            forall|v: int| 0 <= v < j ==> #[trigger] states@[v] == 0,
        decreases n - j,
    {
        states.push(0);
        j = j + 1;
    }
    let ghost mut fin: Seq<int> = Seq::new(n as nat, |i: int| 0);
    let ghost mut cnt: int = 0;
    assert(dfs_state_ok(g, states@, Seq::empty(), fin, cnt));
    let mut start: usize = 0;
    while start < n
        invariant
            g == graph_of(parents@),
            parents_in_range(g),
            n == g.len(),
            start <= n,
            dfs_state_ok(g, states@, Seq::empty(), fin, cnt),
            forall|v: int| 0 <= v < start ==> #[trigger] states@[v] == 2,
        decreases n - start,
    {
        if states[start] != 2 {
            proof {
                lemma_white_count_bound(states@);
            }
            let ghost fuel: nat = states@.len();
            let (res, Ghost(fin2), Ghost(cnt2)) = visit_snapshot_parent_graph(
                start,
                parents,
                &mut states,
                Ghost(Seq::empty()),
                Ghost(fin),
                Ghost(cnt),
                Ghost(fuel),
            );
            if res.is_err() {
                return res;
            }
            proof {
                fin = fin2;
                cnt = cnt2;
            }
        }
        start = start + 1;
    }
    proof {
        assert(ranked(g, fin));
        lemma_ranked_acyclic(g, fin);
    }
    Ok(())
}

// ----- snapshot parent authority -----------------------------------------

/// The ordered parents of a snapshot: its primary parent followed by the
/// additional parents of its payload; none without a primary parent.
pub open spec fn parent_list(s: BinarySnapshotRecord, additional: Seq<u32>) -> Seq<u32> {
    match plus_one_index(s.parent_snapshot_index_plus1) {
        Some(p) => seq![p] + additional,
        None => Seq::empty(),
    }
}

/// The parent rules of snapshot `i`: a tombstone has no additional parents;
/// a live snapshot's flag matches its payload, a history boundary has no
/// local parents, additional parents need a primary parent, and every parent
/// is an earlier live snapshot named once.
pub open spec fn snapshot_parents_ok(
    snaps: Seq<BinarySnapshotRecord>,
    adds: Seq<Seq<u32>>,
    i: int,
) -> bool {
    let s = snaps[i];
    let add = adds[i];
    let list = parent_list(s, add);
    if s.spec_is_tombstone() {
        add.len() == 0
    } else {
        &&& s.spec_has_additional_parents() == (add.len() > 0)
        &&& !(s.spec_is_remote_head_history_boundary() && (s.parent_snapshot_index_plus1 != 0
            || add.len() > 0))
        &&& (s.parent_snapshot_index_plus1 == 0 ==> add.len() == 0)
        &&& forall|k: int|
            0 <= k < list.len() ==> #[trigger] list[k] < i && !snaps[list[k] as int].spec_is_tombstone()
        &&& forall|j: int, k: int| 0 <= j < k < list.len() ==> #[trigger] list[j] != #[trigger] list[k]
    }
}

/// The graph edges that the closure check builds for snapshot `i`.
pub open spec fn authority_edges(snaps: Seq<BinarySnapshotRecord>, adds: Seq<Seq<u32>>, i: int) -> Seq<
    u32,
> {
    if snaps[i].spec_is_tombstone() {
        Seq::empty()
    } else {
        parent_list(snaps[i], adds[i])
    }
}

/// The contents of a list of parent lists.
pub open spec fn parent_lists_view(lists: Seq<Vec<u32>>) -> Seq<Seq<u32>> {
    Seq::new(lists.len(), |i: int| lists[i]@)
}

/// The parent graph that the closure check builds from snapshots and their
/// additional parents.
pub open spec fn authority_graph(snaps: Seq<BinarySnapshotRecord>, adds: Seq<Seq<u32>>) -> Seq<Seq<u32>> {
    Seq::new(snaps.len(), |i: int| authority_edges(snaps, adds, i))
}

/// Snapshots that meet the parent rules form a DAG: every parent is an
/// earlier snapshot, so the parent graph has no cycle.
pub proof fn law_canonical_parents_are_acyclic(snaps: Seq<BinarySnapshotRecord>, adds: Seq<Seq<u32>>)
    requires
        adds.len() == snaps.len(),
        forall|i: int| 0 <= i < snaps.len() ==> #[trigger] snapshot_parents_ok(snaps, adds, i),
    ensures
        !has_cycle(authority_graph(snaps, adds)),
{
    let g = authority_graph(snaps, adds);
    let rank = Seq::new(snaps.len(), |a: int| a);
    assert forall|u: int, k: int| 0 <= u < g.len() && 0 <= k < g[u].len() implies #[trigger] g[u][k]
        < g.len() && rank[g[u][k] as int] < rank[u] by {
        assert(g[u] == authority_edges(snaps, adds, u));
        assert(snapshot_parents_ok(snaps, adds, u));
    }
    lemma_ranked_acyclic(g, rank);
}

fn snapshot_message(snapshot_index: usize, tail: &str) -> (s: String)
    ensures
        s@ == "Binary DB content closure snapshot "@ + spec_decimal(snapshot_index as nat) + tail@,
{
    let mut v = chars_of("Binary DB content closure snapshot ");
    push_decimal(&mut v, snapshot_index as u64);
    push_str(&mut v, tail);
    string_from_chars(&v)
}

fn snapshot_parent_message(snapshot_index: usize, middle: &str, parent: u32) -> (s: String)
    ensures
        s@ == "Binary DB content closure snapshot "@ + spec_decimal(snapshot_index as nat) + middle@
            + spec_decimal(parent as nat) + "."@,
{
    let mut v = chars_of("Binary DB content closure snapshot ");
    push_decimal(&mut v, snapshot_index as u64);
    push_str(&mut v, middle);
    push_decimal(&mut v, parent as u64);
    push_str(&mut v, ".");
    string_from_chars(&v)
}

/// The message that refuses the parents of snapshot `i`, where `k` is the
/// position of the parent at fault and `j` an earlier position naming the
/// same parent.
pub open spec fn parent_refusal(
    snaps: Seq<BinarySnapshotRecord>,
    adds: Seq<Seq<u32>>,
    i: int,
    k: int,
    j: int,
    e: Seq<char>,
) -> bool {
    let s = snaps[i];
    let add = adds[i];
    let list = parent_list(s, add);
    let snapshot = "Binary DB content closure snapshot "@ + spec_decimal(i as nat);
    ||| s.spec_is_tombstone() && add.len() > 0 && e == snapshot + " has additional parents."@
    ||| !s.spec_is_tombstone() && s.spec_has_additional_parents() != (add.len() > 0) && e == snapshot
        + " additional-parent flag disagrees with its payload."@
    ||| !s.spec_is_tombstone() && s.spec_is_remote_head_history_boundary() && (
    s.parent_snapshot_index_plus1 != 0 || add.len() > 0) && e == snapshot
        + " is a remote-head history boundary but also has local parents."@
    ||| !s.spec_is_tombstone() && s.parent_snapshot_index_plus1 == 0 && add.len() > 0 && e == snapshot
        + " has additional parents without ordinal zero."@
    ||| !s.spec_is_tombstone() && 0 <= k < list.len() && {
        let parent = list[k];
        ||| parent >= snaps.len() && e == snapshot + " references missing parent snapshot "@
            + spec_decimal(parent as nat) + "."@
        ||| parent == i && e == snapshot + " points at itself."@
        ||| i < parent < snaps.len() && e == snapshot + " parent ordinal "@ + spec_decimal(k as nat)
            + " must reference an earlier record, got "@ + spec_decimal(parent as nat) + "."@
        ||| 0 <= j < k && list[j] == parent && e == snapshot + " contains duplicate parent snapshot "@
            + spec_decimal(parent as nat) + "."@
        ||| parent < snaps.len() && snaps[parent as int].spec_is_tombstone() && e == snapshot
            + " references tombstoned parent snapshot "@ + spec_decimal(parent as nat) + "."@
    }
}

/// An error of the parent check: a payload list not aligned with the
/// records, or the refusal of the parents of one snapshot.
pub open spec fn parent_authority_error(
    snaps: Seq<BinarySnapshotRecord>,
    adds: Seq<Seq<u32>>,
    e: Seq<char>,
) -> bool {
    ||| snaps.len() != adds.len() && e
        == "Binary DB content closure lost Snapshot parent payload alignment."@
    ||| snaps.len() == adds.len() && exists|i: int, k: int, j: int|
        0 <= i < snaps.len() && #[trigger] parent_refusal(snaps, adds, i, k, j, e)
}

/// Checks the parents of every snapshot against the parent rules, then the
/// acyclicity of the parent graph. Succeeds exactly when the payload list is
/// aligned with the records and every snapshot meets the parent rules.
pub fn validate_snapshot_parent_authority(
    snapshots: &[BinarySnapshotRecord],
    additional_parents_by_snapshot: &[Vec<u32>],
) -> (r: Result<(), String>)
    requires
        snapshots@.len() <= u32::MAX,
    ensures
        r is Ok <==> snapshots@.len() == additional_parents_by_snapshot@.len() && forall|i: int|
            0 <= i < snapshots@.len() ==> #[trigger] snapshot_parents_ok(
                snapshots@,
                parent_lists_view(additional_parents_by_snapshot@),
                i,
            ),
        r matches Err(e) ==> parent_authority_error(
            snapshots@,
            parent_lists_view(additional_parents_by_snapshot@),
            e@,
        ),
{
    if snapshots.len() != additional_parents_by_snapshot.len() {
        return Err(owned("Binary DB content closure lost Snapshot parent payload alignment."));
    }
    let ghost snaps = snapshots@;
    let ghost adds = parent_lists_view(additional_parents_by_snapshot@);
    let n = snapshots.len();
    let mut parents: Vec<Vec<u32>> = Vec::new();
    let mut i: usize = 0;
    while i < n
        invariant
            n == snaps.len() == adds.len(),
            snaps == snapshots@,
            adds == parent_lists_view(additional_parents_by_snapshot@),
            n <= u32::MAX,
            i <= n,
            parents@.len() == i,
            forall|a: int| 0 <= a < i ==> #[trigger] snapshot_parents_ok(snaps, adds, a),
            forall|a: int| 0 <= a < i ==> (#[trigger] parents@[a])@ == authority_edges(snaps, adds, a),
        decreases n - i,
    {
        let snapshot = &snapshots[i];
        let additional = &additional_parents_by_snapshot[i];
        if snapshot.is_tombstone() {
            if additional.len() != 0 {
                proof {
                    assert(!snapshot_parents_ok(snaps, adds, i as int));
                }
                let message = snapshot_message(i, " has additional parents.");
                proof {
                    assert(parent_refusal(snaps, adds, i as int, 0, 0, message@));
                }
                return Err(message);
            }
            parents.push(Vec::new());
            proof {
                assert(parents@[i as int]@ =~= authority_edges(snaps, adds, i as int));
                assert(snapshot_parents_ok(snaps, adds, i as int));
            }
            i = i + 1;
            continue;
        }
        if snapshot.has_additional_parents() == (additional.len() == 0) {
            proof {
                assert(!snapshot_parents_ok(snaps, adds, i as int));
            }
            let message = snapshot_message(i, " additional-parent flag disagrees with its payload.");
            proof {
                assert(parent_refusal(snaps, adds, i as int, 0, 0, message@));
            }
            return Err(message);
        }
        if snapshot.is_remote_head_history_boundary() && (snapshot.parent_snapshot_index().is_some()
            || additional.len() != 0) {
            proof {
                assert(!snapshot_parents_ok(snaps, adds, i as int));
            }
            let message = snapshot_message(i, " is a remote-head history boundary but also has local parents.");
            proof {
                assert(parent_refusal(snaps, adds, i as int, 0, 0, message@));
            }
            return Err(message);
        }
        let mut list: Vec<u32> = Vec::new();
        match snapshot.parent_snapshot_index() {
            Some(p) => {
                list.push(p);
                list.extend_from_slice(additional.as_slice());
            },
            None => {
                if additional.len() != 0 {
                    proof {
                        assert(!snapshot_parents_ok(snaps, adds, i as int));
                    }
                    let message = snapshot_message(i, " has additional parents without ordinal zero.");
                    proof {
                        assert(parent_refusal(snaps, adds, i as int, 0, 0, message@));
                    }
                    return Err(message);
                }
            },
        }
        let ghost expected = parent_list(snaps[i as int], adds[i as int]);
        assert(list@ =~= expected);
        let mut k: usize = 0;
        while k < list.len()
            invariant
                n == snaps.len() == adds.len(),
                snaps == snapshots@,
                adds == parent_lists_view(additional_parents_by_snapshot@),
                !snaps[i as int].spec_is_tombstone(),
                i < n,
                list@ == expected,
                expected == parent_list(snaps[i as int], adds[i as int]),
                k <= list.len(),
                forall|a: int|
                    0 <= a < k ==> #[trigger] list@[a] < i && !snaps[list@[a] as int].spec_is_tombstone(),
                forall|a: int, b: int| 0 <= a < b < k ==> #[trigger] list@[a] != #[trigger] list@[b],
            decreases list.len() - k,
        {
            let parent = list[k];
            proof {
                if !(parent < i && !snaps[parent as int].spec_is_tombstone()) {
                    assert(expected[k as int] == parent);
                    assert(!snapshot_parents_ok(snaps, adds, i as int));
                }
            }
            if parent as usize >= n {
                let message = snapshot_parent_message(i, " references missing parent snapshot ", parent);
                proof {
                    assert(parent_refusal(snaps, adds, i as int, k as int, 0, message@));
                }
                return Err(message);
            }
            if parent as usize == i {
                let message = snapshot_message(i, " points at itself.");
                proof {
                    assert(parent_refusal(snaps, adds, i as int, k as int, 0, message@));
                }
                return Err(message);
            }
            if parent as usize > i {
                let mut v = chars_of("Binary DB content closure snapshot ");
                push_decimal(&mut v, i as u64);
                push_str(&mut v, " parent ordinal ");
                push_decimal(&mut v, k as u64);
                push_str(&mut v, " must reference an earlier record, got ");
                push_decimal(&mut v, parent as u64);
                push_str(&mut v, ".");
                let message = string_from_chars(&v);
                proof {
                    assert(parent_refusal(snaps, adds, i as int, k as int, 0, message@));
                }
                return Err(message);
            }
            let mut j: usize = 0;
            while j < k
                invariant
                    k < list.len(),
                    list@ == expected,
                    expected == parent_list(snaps[i as int], adds[i as int]),
                    !snaps[i as int].spec_is_tombstone(),
                    snaps == snapshots@,
                    adds == parent_lists_view(additional_parents_by_snapshot@),
                    n == snaps.len() == adds.len(),
                    i < n,
                    j <= k,
                    parent == list@[k as int],
                    forall|a: int| 0 <= a < j ==> #[trigger] list@[a] != parent,
                decreases k - j,
            {
                if list[j] == parent {
                    proof {
                        assert(expected[j as int] == expected[k as int]);
                        assert(!snapshot_parents_ok(snaps, adds, i as int));
                    }
                    let message = snapshot_parent_message(i, " contains duplicate parent snapshot ", parent);
                    proof {
                        assert(parent_refusal(snaps, adds, i as int, k as int, j as int, message@));
                    }
                    return Err(message);
                }
                j = j + 1;
            }
            if snapshots[parent as usize].is_tombstone() {
                let message = snapshot_parent_message(i, " references tombstoned parent snapshot ", parent);
                proof {
                    assert(parent_refusal(snaps, adds, i as int, k as int, 0, message@));
                }
                return Err(message);
            }
            k = k + 1;
        }
        parents.push(list);
        proof {
            assert(parents@[i as int]@ =~= authority_edges(snaps, adds, i as int));
            assert(snapshot_parents_ok(snaps, adds, i as int));
        }
        i = i + 1;
    }
    proof {
        let g = graph_of(parents@);
        let rank = Seq::new(n as nat, |a: int| a);
        assert forall|u: int, k: int| 0 <= u < g.len() && 0 <= k < g[u].len() implies #[trigger] g[u][k]
            < g.len() && rank[g[u][k] as int] < rank[u] by {
            assert(g[u] == authority_edges(snaps, adds, u));
            assert(snapshot_parents_ok(snaps, adds, u));
        }
        lemma_ranked_acyclic(g, rank);
    }
    let checked = validate_snapshot_parent_graph(parents.as_slice());
    assert(checked is Ok);
    checked
}

// ----- object pack member back-references --------------------------------

/// Scanning the packs in order from `c`, the first whose member range ends
/// after member `m` (`packs.len()` when none does); `None` when the range
/// end of a pack reached by the scan overflows `u32`.
pub open spec fn owning_pack_from(packs: Seq<BinaryObjectPackRecord>, m: int, c: int) -> Option<int>
    decreases packs.len() - c,
{
    if c >= packs.len() {
        Some(c)
    } else if packs[c].first_member_index + packs[c].member_count > u32::MAX {
        None
    } else if m < packs[c].first_member_index + packs[c].member_count {
        Some(c)
    } else {
        owning_pack_from(packs, m, c + 1)
    }
}

/// The rules for member `m`, which the scan placed in pack `c`: it names
/// that pack, a tombstoned pack holds only tombstones and an active pack
/// none, and a live member's blob and base blob are available and its blob
/// has selected a member.
pub open spec fn member_ok(
    packs: Seq<BinaryObjectPackRecord>,
    members: Seq<BinaryObjectPackMemberRecord>,
    blobs: Seq<BinaryBlobRecord>,
    pointers: Seq<Option<u32>>,
    m: int,
    c: int,
) -> bool {
    let member = members[m];
    &&& member.pack_index == c
    &&& packs[c].spec_is_tombstone() == member.spec_is_tombstone()
    &&& !member.spec_is_tombstone() ==> {
        let blob = blobs[member.blob_index as int];
        &&& !blob.spec_is_tombstone() && !blob.spec_is_pruned()
        &&& plus_one_index(member.base_blob_index_plus1) matches Some(b) ==> !blobs[b as int].spec_is_tombstone()
            && !blobs[b as int].spec_is_pruned()
        &&& pointers[member.blob_index as int] is Some
    }
}

pub open spec fn member_placed_ok(
    packs: Seq<BinaryObjectPackRecord>,
    members: Seq<BinaryObjectPackMemberRecord>,
    blobs: Seq<BinaryBlobRecord>,
    pointers: Seq<Option<u32>>,
    m: int,
) -> bool {
    match owning_pack_from(packs, m, 0) {
        Some(c) => member_ok(packs, members, blobs, pointers, m, c),
        None => false,
    }
}

/// A live blob's selected member exists, is live and points back at it.
pub open spec fn blob_pointer_ok(
    members: Seq<BinaryObjectPackMemberRecord>,
    blobs: Seq<BinaryBlobRecord>,
    pointers: Seq<Option<u32>>,
    b: int,
) -> bool {
    !blobs[b].spec_is_tombstone() ==> (pointers[b] matches Some(mi) ==> mi < members.len()
        && !members[mi as int].spec_is_tombstone() && members[mi as int].blob_index == b)
}

proof fn lemma_owning_pack_resume(packs: Seq<BinaryObjectPackRecord>, a: int, b: int, d: int, c: int)
    requires
        0 <= d <= c,
        a <= b,
        owning_pack_from(packs, a, d) == Some(c),
    ensures
        owning_pack_from(packs, b, d) == owning_pack_from(packs, b, c),
    decreases c - d,
{
    if d < c && d < packs.len() {
        lemma_owning_pack_resume(packs, a, b, d + 1, c);
    }
}

fn member_message(member_index: usize, middle: &str, n: u64, tail: &str) -> (s: String)
    ensures
        s@ == "Binary DB content closure live object pack member "@ + spec_decimal(
            member_index as nat,
        ) + middle@ + spec_decimal(n as nat) + tail@,
{
    let mut v = chars_of("Binary DB content closure live object pack member ");
    push_decimal(&mut v, member_index as u64);
    push_str(&mut v, middle);
    push_decimal(&mut v, n);
    push_str(&mut v, tail);
    string_from_chars(&v)
}

/// Checks that object pack members, packs and blobs point at each other
/// consistently. Succeeds exactly when every member meets the rules of the
/// pack that owns it and every live blob's selected member points back at
/// it.
/// The message that refuses member `m`, where `c` is the pack the scan
/// stopped at: a pack whose range end overflows, a member that names
/// another pack, a live member in a tombstoned pack, a tombstoned member in
/// an active pack, or a live member whose blob or base blob is unavailable
/// or whose blob has selected no member.
pub open spec fn member_refusal(
    packs: Seq<BinaryObjectPackRecord>,
    members: Seq<BinaryObjectPackMemberRecord>,
    blobs: Seq<BinaryBlobRecord>,
    pointers: Seq<Option<u32>>,
    m: int,
    c: int,
    e: Seq<char>,
) -> bool {
    let member = members[m];
    let live = "Binary DB content closure live object pack member "@ + spec_decimal(m as nat);
    ||| {
        &&& owning_pack_from(packs, m, 0) is None
        &&& 0 <= c < packs.len()
        &&& packs[c].first_member_index + packs[c].member_count > u32::MAX
        &&& e == owner_prefix("object pack"@, c as u32) + " range overflows u32."@
    }
    ||| owning_pack_from(packs, m, 0) == Some(c) && {
        ||| member.pack_index != c && e == "Binary DB content closure object pack member "@
            + spec_decimal(m as nat) + " points to pack "@ + spec_decimal(member.pack_index as nat)
            + ", expected "@ + spec_decimal(c as nat) + "."@
        ||| member.pack_index == c && packs[c].spec_is_tombstone() && !member.spec_is_tombstone() && e
            == "Binary DB content closure tombstoned object pack "@ + spec_decimal(c as nat)
            + " contains live member "@ + spec_decimal(m as nat) + "."@
        ||| member.pack_index == c && !packs[c].spec_is_tombstone() && member.spec_is_tombstone() && e
            == "Binary DB content closure active object pack "@ + spec_decimal(c as nat)
            + " contains tombstoned member "@ + spec_decimal(m as nat) + "."@
        ||| member.pack_index == c && !member.spec_is_tombstone() && {
            let blob = blobs[member.blob_index as int];
            ||| (blob.spec_is_tombstone() || blob.spec_is_pruned()) && e == live
                + " references unavailable blob "@ + spec_decimal(member.blob_index as nat) + "."@
            ||| (plus_one_index(member.base_blob_index_plus1) matches Some(b) && (
            blobs[b as int].spec_is_tombstone() || blobs[b as int].spec_is_pruned()) && e == live
                + " references unavailable base blob "@ + spec_decimal(b as nat) + "."@)
            ||| pointers[member.blob_index as int] is None && e == live + " references blob "@
                + spec_decimal(member.blob_index as nat) + " without a selected object pack member."@
        }
    }
}

/// The message that refuses the member selected by live blob `b`.
pub open spec fn pointer_refusal(
    members: Seq<BinaryObjectPackMemberRecord>,
    blobs: Seq<BinaryBlobRecord>,
    pointers: Seq<Option<u32>>,
    b: int,
    e: Seq<char>,
) -> bool {
    !blobs[b].spec_is_tombstone() && (pointers[b] matches Some(mi) && {
        ||| mi >= members.len() && e == "Binary DB content closure blob "@ + spec_decimal(b as nat)
            + " points to missing member "@ + spec_decimal(mi as nat) + "."@
        ||| mi < members.len() && (members[mi as int].spec_is_tombstone()
            || members[mi as int].blob_index != b) && e == "Binary DB content closure live blob "@
            + spec_decimal(b as nat) + " points to unavailable member "@ + spec_decimal(mi as nat)
            + "."@
    })
}

/// An error of the back-reference check: the refusal of a member or of the
/// member a blob selects.
pub open spec fn backreference_error(
    packs: Seq<BinaryObjectPackRecord>,
    members: Seq<BinaryObjectPackMemberRecord>,
    blobs: Seq<BinaryBlobRecord>,
    pointers: Seq<Option<u32>>,
    e: Seq<char>,
) -> bool {
    ||| exists|m: int, c: int|
        0 <= m < members.len() && #[trigger] member_refusal(packs, members, blobs, pointers, m, c, e)
    ||| exists|b: int| 0 <= b < blobs.len() && #[trigger] pointer_refusal(members, blobs, pointers, b, e)
}

pub fn validate_object_member_backreferences(
    packs: &[BinaryObjectPackRecord],
    members: &[BinaryObjectPackMemberRecord],
    blobs: &[BinaryBlobRecord],
    blob_member_pointers: &[Option<u32>],
) -> (r: Result<(), String>)
    requires
        blob_member_pointers@.len() == blobs@.len(),
        forall|m: int| 0 <= m < members@.len() ==> (#[trigger] members@[m]).pack_index < packs@.len(),
        forall|m: int| 0 <= m < members@.len() ==> (#[trigger] members@[m]).blob_index < blobs@.len(),
        forall|m: int|
            0 <= m < members@.len() ==> (plus_one_index((#[trigger] members@[m]).base_blob_index_plus1) matches Some(
                b,
            ) ==> b < blobs@.len()),
    ensures
        r is Ok <==> (forall|m: int|
            0 <= m < members@.len() ==> #[trigger] member_placed_ok(
                packs@,
                members@,
                blobs@,
                blob_member_pointers@,
                m,
            )) && (forall|b: int|
            0 <= b < blobs@.len() ==> #[trigger] blob_pointer_ok(
                members@,
                blobs@,
                blob_member_pointers@,
                b,
            )),
        r matches Err(e) ==> backreference_error(
            packs@,
            members@,
            blobs@,
            blob_member_pointers@,
            e@,
        ),
{
    let ghost ps = packs@;
    let ghost ms = members@;
    let ghost bs = blobs@;
    let ghost ptrs = blob_member_pointers@;
    let mut pack_cursor: usize = 0;
    let mut m: usize = 0;
    while m < members.len()
        invariant
            ps == packs@,
            ms == members@,
            bs == blobs@,
            ptrs == blob_member_pointers@,
            ptrs.len() == bs.len(),
            forall|a: int| 0 <= a < ms.len() ==> (#[trigger] ms[a]).pack_index < ps.len(),
            forall|a: int| 0 <= a < ms.len() ==> (#[trigger] ms[a]).blob_index < bs.len(),
            forall|a: int|
                0 <= a < ms.len() ==> (plus_one_index((#[trigger] ms[a]).base_blob_index_plus1) matches Some(
                    b,
                ) ==> b < bs.len()),
            m <= ms.len(),
            pack_cursor <= ps.len(),
            m == 0 ==> pack_cursor == 0,
            m > 0 ==> owning_pack_from(ps, m - 1, 0) == Some(pack_cursor as int),
            forall|a: int| 0 <= a < m ==> #[trigger] member_placed_ok(ps, ms, bs, ptrs, a),
        decreases ms.len() - m,
    {
        proof {
            if m > 0 {
                lemma_owning_pack_resume(ps, m - 1, m as int, 0, pack_cursor as int);
            }
        }
        let mut found = false;
        while !found && pack_cursor < packs.len()
            invariant
                ps == packs@,
                ms == members@,
                bs == blobs@,
                ptrs == blob_member_pointers@,
                pack_cursor <= ps.len(),
                m < ms.len(),
                owning_pack_from(ps, m as int, 0) == owning_pack_from(ps, m as int, pack_cursor as int),
                found ==> pack_cursor < ps.len() && owning_pack_from(ps, m as int, pack_cursor as int)
                    == Some(pack_cursor as int),
            decreases ps.len() - pack_cursor + (if found {
                0int
            } else {
                1int
            }),
        {
            let pack = &packs[pack_cursor];
            let end = match checked_range_end(
                "object pack",
                pack_cursor as u32,
                pack.first_member_index,
                pack.member_count,
            ) {
                Ok(end) => end,
                Err(e) => {
                    proof {
                        assert(!member_placed_ok(ps, ms, bs, ptrs, m as int));
                    }
                    let message = e;
                    proof {
                        assert(member_refusal(ps, ms, bs, ptrs, m as int, pack_cursor as int, message@));
                    }
                    return Err(message);
                },
            };
            if m < end as usize {
                found = true;
            } else {
                pack_cursor = pack_cursor + 1;
            }
        }
        let member = &members[m];
        assert(owning_pack_from(ps, m as int, 0) == Some(pack_cursor as int));
        if member.pack_index as usize != pack_cursor {
            proof {
                assert(!member_placed_ok(ps, ms, bs, ptrs, m as int));
            }
            let mut v = chars_of("Binary DB content closure object pack member ");
            push_decimal(&mut v, m as u64);
            push_str(&mut v, " points to pack ");
            push_decimal(&mut v, member.pack_index as u64);
            push_str(&mut v, ", expected ");
            push_decimal(&mut v, pack_cursor as u64);
            push_str(&mut v, ".");
            let message = string_from_chars(&v);
            proof {
                assert(member_refusal(ps, ms, bs, ptrs, m as int, pack_cursor as int, message@));
            }
            return Err(message);
        }
        let pack = &packs[pack_cursor];
        if pack.is_tombstone() && !member.is_tombstone() {
            proof {
                assert(!member_placed_ok(ps, ms, bs, ptrs, m as int));
            }
            let mut v = chars_of("Binary DB content closure tombstoned object pack ");
            push_decimal(&mut v, pack_cursor as u64);
            push_str(&mut v, " contains live member ");
            push_decimal(&mut v, m as u64);
            push_str(&mut v, ".");
            let message = string_from_chars(&v);
            proof {
                assert(member_refusal(ps, ms, bs, ptrs, m as int, pack_cursor as int, message@));
            }
            return Err(message);
        }
        if member.is_tombstone() {
            if !pack.is_tombstone() {
                proof {
                    assert(!member_placed_ok(ps, ms, bs, ptrs, m as int));
                }
                let mut v = chars_of("Binary DB content closure active object pack ");
                push_decimal(&mut v, pack_cursor as u64);
                push_str(&mut v, " contains tombstoned member ");
                push_decimal(&mut v, m as u64);
                push_str(&mut v, ".");
                let message = string_from_chars(&v);
                proof {
                    assert(member_refusal(ps, ms, bs, ptrs, m as int, pack_cursor as int, message@));
                }
                return Err(message);
            }
            assert(member_placed_ok(ps, ms, bs, ptrs, m as int));
            m = m + 1;
            continue;
        }
        let blob = &blobs[member.blob_index as usize];
        if blob.is_tombstone() || blob.is_pruned() {
            proof {
                assert(!member_placed_ok(ps, ms, bs, ptrs, m as int));
            }
            let message = member_message(m, " references unavailable blob ", member.blob_index as u64, ".");
            proof {
                assert(member_refusal(ps, ms, bs, ptrs, m as int, pack_cursor as int, message@));
            }
            return Err(message);
        }
        match member.base_blob_index() {
            Some(base_blob_index) => {
                let base_blob = &blobs[base_blob_index as usize];
                if base_blob.is_tombstone() || base_blob.is_pruned() {
                    proof {
                        assert(!member_placed_ok(ps, ms, bs, ptrs, m as int));
                    }
                    let message = member_message(
                        m,
                        " references unavailable base blob ",
                        base_blob_index as u64,
                        ".",
                    );
                    proof {
                        assert(plus_one_index(ms[m as int].base_blob_index_plus1) == Some(base_blob_index));
                    }
                    proof {
                        assert(member_refusal(ps, ms, bs, ptrs, m as int, pack_cursor as int, message@));
                    }
                    return Err(message);
                }
            },
            None => {},
        }
        if blob_member_pointers[member.blob_index as usize].is_none() {
            proof {
                assert(!member_placed_ok(ps, ms, bs, ptrs, m as int));
            }
            let message = member_message(
                m,
                " references blob ",
                member.blob_index as u64,
                " without a selected object pack member.",
            );
            proof {
                assert(member_refusal(ps, ms, bs, ptrs, m as int, pack_cursor as int, message@));
            }
            return Err(message);
        }
        assert(member_placed_ok(ps, ms, bs, ptrs, m as int));
        m = m + 1;
    }
    let mut b: usize = 0;
    while b < blobs.len()
        invariant
            ms == members@,
            bs == blobs@,
            ptrs == blob_member_pointers@,
            ptrs.len() == bs.len(),
            b <= bs.len(),
            forall|a: int| 0 <= a < ms.len() ==> #[trigger] member_placed_ok(ps, ms, bs, ptrs, a),
            forall|a: int| 0 <= a < b ==> #[trigger] blob_pointer_ok(ms, bs, ptrs, a),
        decreases bs.len() - b,
    {
        let blob = &blobs[b];
        if !blob.is_tombstone() {
            match blob_member_pointers[b] {
                Some(member_index) => {
                    if member_index as usize >= members.len() {
                        proof {
                            assert(!blob_pointer_ok(ms, bs, ptrs, b as int));
                        }
                        let mut v = chars_of("Binary DB content closure blob ");
                        push_decimal(&mut v, b as u64);
                        push_str(&mut v, " points to missing member ");
                        push_decimal(&mut v, member_index as u64);
                        push_str(&mut v, ".");
                        let message = string_from_chars(&v);
                        proof {
                            assert(pointer_refusal(ms, bs, ptrs, b as int, message@));
                        }
                        return Err(message);
                    }
                    let member = &members[member_index as usize];
                    if member.is_tombstone() || member.blob_index as usize != b {
                        proof {
                            assert(!blob_pointer_ok(ms, bs, ptrs, b as int));
                        }
                        let mut v = chars_of("Binary DB content closure live blob ");
                        push_decimal(&mut v, b as u64);
                        push_str(&mut v, " points to unavailable member ");
                        push_decimal(&mut v, member_index as u64);
                        push_str(&mut v, ".");
                        let message = string_from_chars(&v);
                        proof {
                            assert(pointer_refusal(ms, bs, ptrs, b as int, message@));
                        }
                        return Err(message);
                    }
                },
                None => {},
            }
        }
        assert(blob_pointer_ok(ms, bs, ptrs, b as int));
        b = b + 1;
    }
    Ok(())
}

// ----- index and range rules ----------------------------------------------

/// Size of the header in front of every record and payload file.
pub const FILE_HEADER_BYTES: u64 = 4;

/// The common prefix of every closure message about one owner record.
pub open spec fn owner_prefix(owner_label: Seq<char>, owner_index: u32) -> Seq<char> {
    "Binary DB content closure "@ + owner_label + " "@ + spec_decimal(owner_index as nat)
}

fn owner_message(owner_label: &str, owner_index: u32) -> (v: Vec<char>)
    ensures
        v@ == owner_prefix(owner_label@, owner_index),
{
    let mut v = chars_of("Binary DB content closure ");
    push_str(&mut v, owner_label);
    push_str(&mut v, " ");
    push_decimal(&mut v, owner_index as u64);
    v
}

/// An owner record's pointer must name one of the `target_count` records.
pub fn require_index(
    owner_label: &str,
    owner_index: u32,
    target_label: &str,
    target_index: u32,
    target_count: u32,
) -> (r: Result<(), String>)
    ensures
        r is Ok <==> target_index < target_count,
        r matches Err(e) ==> e@ == owner_prefix(owner_label@, owner_index) + " references "@
            + target_label@ + " index "@ + spec_decimal(target_index as nat) + ", but only "@
            + spec_decimal(target_count as nat) + " records exist."@,
{
    if target_index < target_count {
        return Ok(());
    }
    let mut v = owner_message(owner_label, owner_index);
    push_str(&mut v, " references ");
    push_str(&mut v, target_label);
    push_str(&mut v, " index ");
    push_decimal(&mut v, target_index as u64);
    push_str(&mut v, ", but only ");
    push_decimal(&mut v, target_count as u64);
    push_str(&mut v, " records exist.");
    Err(string_from_chars(&v))
}

/// The exclusive end of the range `[first, first + count)`, refused when it
/// does not fit in `u32`.
pub fn checked_range_end(owner_label: &str, owner_index: u32, first: u32, count: u32) -> (r: Result<
    u32,
    String,
>)
    ensures
        r is Ok <==> first + count <= u32::MAX,
        r matches Ok(end) ==> end == first + count,
        r matches Err(e) ==> e@ == owner_prefix(owner_label@, owner_index)
            + " range overflows u32."@,
{
    match first.checked_add(count) {
        Some(end) => Ok(end),
        None => {
            let mut v = owner_message(owner_label, owner_index);
            push_str(&mut v, " range overflows u32.");
            Err(string_from_chars(&v))
        },
    }
}

/// The message that refuses the range `[first, first + count)` of an owner
/// whose range should start at `expected`: a start off the dense offset, an
/// end past `u32`, or an end past the `target_count` records of the file.
pub open spec fn dense_range_refusal(
    owner_label: Seq<char>,
    owner_index: u32,
    target_file: Seq<char>,
    first: u32,
    count: u32,
    target_count: u32,
    expected: u32,
    e: Seq<char>,
) -> bool {
    if first != expected {
        e == owner_prefix(owner_label, owner_index) + " starts "@ + target_file + " at "@
            + spec_decimal(first as nat) + ", expected dense offset "@ + spec_decimal(
            expected as nat,
        ) + "."@
    } else if first + count > u32::MAX {
        e == owner_prefix(owner_label, owner_index) + " range overflows u32."@
    } else {
        &&& first + count > target_count
        &&& e == owner_prefix(owner_label, owner_index) + " requires "@ + target_file
            + " records ["@ + spec_decimal(first as nat) + ".."@ + spec_decimal(
            (first + count) as nat,
        ) + "), but the file contains "@ + spec_decimal(target_count as nat) + " records."@
    }
}

/// A pack's range must start where the previous pack's range ended and stay
/// inside the target file; on success the dense cursor moves to its end.
pub fn require_dense_range(
    owner_label: &str,
    owner_index: u32,
    target_file: &str,
    first: u32,
    count: u32,
    target_count: u32,
    expected_start: &mut u32,
) -> (r: Result<(), String>)
    ensures
        r is Ok <==> first == *old(expected_start) && first + count <= target_count,
        r is Ok ==> *final(expected_start) == first + count,
        r is Err ==> *final(expected_start) == *old(expected_start),
        r matches Err(e) ==> dense_range_refusal(
            owner_label@,
            owner_index,
            target_file@,
            first,
            count,
            target_count,
            *old(expected_start),
            e@,
        ),
{
    if first != *expected_start {
        let mut v = owner_message(owner_label, owner_index);
        push_str(&mut v, " starts ");
        push_str(&mut v, target_file);
        push_str(&mut v, " at ");
        push_decimal(&mut v, first as u64);
        push_str(&mut v, ", expected dense offset ");
        push_decimal(&mut v, *expected_start as u64);
        push_str(&mut v, ".");
        return Err(string_from_chars(&v));
    }
    let end = checked_range_end(owner_label, owner_index, first, count)?;
    if end > target_count {
        let mut v = owner_message(owner_label, owner_index);
        push_str(&mut v, " requires ");
        push_str(&mut v, target_file);
        push_str(&mut v, " records [");
        push_decimal(&mut v, first as u64);
        push_str(&mut v, "..");
        push_decimal(&mut v, end as u64);
        push_str(&mut v, "), but the file contains ");
        push_decimal(&mut v, target_count as u64);
        push_str(&mut v, " records.");
        return Err(string_from_chars(&v));
    }
    *expected_start = end;
    Ok(())
}

/// The packs' ranges together must cover the whole target file.
pub fn require_dense_coverage(owner_label: &str, target_file: &str, covered: u32, target_count: u32)
    -> (r: Result<(), String>)
    ensures
        r is Ok <==> covered == target_count,
        r matches Err(e) ==> e@ == "Binary DB content closure "@ + owner_label@
            + " ranges cover "@ + spec_decimal(covered as nat) + " "@ + target_file@
            + " records, but the file contains "@ + spec_decimal(target_count as nat) + "."@,
{
    if covered == target_count {
        return Ok(());
    }
    let mut v = chars_of("Binary DB content closure ");
    push_str(&mut v, owner_label);
    push_str(&mut v, " ranges cover ");
    push_decimal(&mut v, covered as u64);
    push_str(&mut v, " ");
    push_str(&mut v, target_file);
    push_str(&mut v, " records, but the file contains ");
    push_decimal(&mut v, target_count as u64);
    push_str(&mut v, ".");
    Err(string_from_chars(&v))
}

/// A payload slice must lie after the file header and inside the file.
pub fn require_payload_range(
    owner_label: &str,
    owner_index: u32,
    target_file: &str,
    offset: u64,
    length: u64,
    target_bytes: u64,
) -> (r: Result<(), String>)
    ensures
        r is Ok <==> offset + length <= u64::MAX && offset >= FILE_HEADER_BYTES && offset + length
            <= target_bytes,
        offset + length > u64::MAX ==> (r matches Err(e) ==> e@ == owner_prefix(
            owner_label@,
            owner_index,
        ) + " payload range overflows u64."@),
        offset + length <= u64::MAX ==> (r matches Err(e) ==> e@ == owner_prefix(
            owner_label@,
            owner_index,
        ) + " requires "@ + target_file@ + " bytes ["@ + spec_decimal(offset as nat) + ".."@
            + spec_decimal((offset + length) as nat) + "), but the file contains "@
            + spec_decimal(target_bytes as nat) + " bytes."@),
{
    let end = match offset.checked_add(length) {
        Some(end) => end,
        None => {
            let mut v = owner_message(owner_label, owner_index);
            push_str(&mut v, " payload range overflows u64.");
            return Err(string_from_chars(&v));
        },
    };
    if offset >= FILE_HEADER_BYTES && end <= target_bytes {
        return Ok(());
    }
    let mut v = owner_message(owner_label, owner_index);
    push_str(&mut v, " requires ");
    push_str(&mut v, target_file);
    push_str(&mut v, " bytes [");
    push_decimal(&mut v, offset);
    push_str(&mut v, "..");
    push_decimal(&mut v, end);
    push_str(&mut v, "), but the file contains ");
    push_decimal(&mut v, target_bytes);
    push_str(&mut v, " bytes.");
    Err(string_from_chars(&v))
}

/// The message that refuses a record file of `len` bytes: shorter than its
/// header, not whole records, or more records than `u32` counts.
pub open spec fn record_count_refusal(path: Seq<char>, len: u64, record_size: u32) -> Seq<char> {
    if len < FILE_HEADER_BYTES {
        "Binary DB content closure file "@ + path + " is shorter than its header."@
    } else if (len - FILE_HEADER_BYTES) % (record_size as int) != 0 {
        "Binary DB content closure file "@ + path + " is not aligned to "@ + spec_decimal(
            record_size as nat,
        ) + "-byte records."@
    } else {
        "Binary DB content closure record count overflows u32: "@ + path
    }
}

/// Number of fixed-size records in a file of `file_len` bytes (an absent
/// file holds none): the body after the header must be whole records and
/// their number must fit in `u32`.
pub fn record_count(path: &str, file_len: Option<u64>, record_size: u32) -> (r: Result<u32, String>)
    requires
        record_size > 0,
    ensures
        match file_len {
            None => r == Ok::<u32, String>(0),
            Some(len) => {
                &&& r is Ok <==> len >= FILE_HEADER_BYTES && (len - FILE_HEADER_BYTES) % (
                record_size as int) == 0 && (len - FILE_HEADER_BYTES) / (record_size as int)
                <= u32::MAX
                &&& r matches Ok(n) ==> n == (len - FILE_HEADER_BYTES) / (record_size as int)
                &&& r matches Err(e) ==> e@ == record_count_refusal(path@, len, record_size)
            },
        },
{
    let len = match file_len {
        None => return Ok(0),
        Some(len) => len,
    };
    if len < FILE_HEADER_BYTES {
        let mut v = chars_of("Binary DB content closure file ");
        push_str(&mut v, path);
        push_str(&mut v, " is shorter than its header.");
        return Err(string_from_chars(&v));
    }
    let body = len - FILE_HEADER_BYTES;
    let size = record_size as u64;
    if body % size != 0 {
        let mut v = chars_of("Binary DB content closure file ");
        push_str(&mut v, path);
        push_str(&mut v, " is not aligned to ");
        push_decimal(&mut v, size);
        push_str(&mut v, "-byte records.");
        return Err(string_from_chars(&v));
    }
    let count = body / size;
    if count > u32::MAX as u64 {
        let mut v = chars_of("Binary DB content closure record count overflows u32: ");
        push_str(&mut v, path);
        return Err(string_from_chars(&v));
    }
    Ok(count as u32)
}

} // verus!
