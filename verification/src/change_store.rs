//! The Change store interface and its call-through helpers. Stores are
//! supplied by callers; listing the changes of one Task is defined here.

use vstd::prelude::*;

use crate::json::{field_get, JsonValue, JsonView};
use crate::text::{chars_eq, chars_of, owned, spec_normalize_text, trim_str};

verus! {

/// Why a Change store refused an operation.
#[derive(Debug)]
pub enum PlanStoreError {
    /// The request itself is not acceptable.
    Invalid(String),
    /// The store could not carry out a valid request.
    Failed(String),
}

pub type PlanStoreResult<T> = Result<T, PlanStoreError>;

/// The text of a row's `task_id` member, when it is a string.
pub open spec fn row_task_id(row: JsonView) -> Option<Seq<char>> {
    match row {
        JsonView::Object(fields) => match field_get(fields, "task_id"@) {
            Some(JsonView::Str(t)) => Some(t),
            _ => None,
        },
        _ => None,
    }
}

/// The rows, in order, whose `task_id` is exactly `task_id`.
pub open spec fn rows_of_task(rows: Seq<JsonView>, task_id: Seq<char>) -> Seq<JsonView>
    decreases rows.len(),
{
    if rows.len() == 0 {
        Seq::empty()
    } else {
        let prev = rows_of_task(rows.drop_last(), task_id);
        if row_task_id(rows.last()) == Some(task_id) {
            prev.push(rows.last())
        } else {
            prev
        }
    }
}

/// The Changes kept for a Task are exactly the listed rows whose `task_id`
/// is that Task's, in listing order: every such row is kept, no other row
/// is, and none is moved.
pub proof fn law_task_rows_are_exactly_the_rows_of_the_task(rows: Seq<JsonView>, task_id: Seq<char>)
    ensures
        rows_of_task(rows, task_id) == rows.filter(|row: JsonView| row_task_id(row) == Some(task_id)),
        forall|i: int|
            0 <= i < rows.len() && row_task_id(rows[i]) == Some(task_id) ==> #[trigger] rows_of_task(
                rows,
                task_id,
            ).contains(rows[i]),
        forall|i: int|
            0 <= i < rows_of_task(rows, task_id).len() ==> row_task_id(
                #[trigger] rows_of_task(rows, task_id)[i],
            ) == Some(task_id),
    decreases rows.len(),
{
    let pred = |row: JsonView| row_task_id(row) == Some(task_id);
    reveal(Seq::filter);
    if rows.len() > 0 {
        law_task_rows_are_exactly_the_rows_of_the_task(rows.drop_last(), task_id);
    }
    assert(rows_of_task(rows, task_id) == rows.filter(pred));
    assert forall|i: int| 0 <= i < rows.len() && row_task_id(rows[i]) == Some(task_id) implies #[trigger] rows_of_task(
        rows,
        task_id,
    ).contains(rows[i]) by {
        rows.lemma_filter_contains(pred, i);
    }
    assert forall|i: int| 0 <= i < rows_of_task(rows, task_id).len() implies row_task_id(
        #[trigger] rows_of_task(rows, task_id)[i],
    ) == Some(task_id) by {
        rows.lemma_filter_pred(pred, i);
    }
}

fn row_task_matches(row: &JsonValue, task_id: &Vec<char>) -> (r: bool)
    ensures
        r == (row_task_id(row.jv()) == Some(task_id@)),
{
    match row {
        JsonValue::Object(fields) => {
            proof {
                crate::json::lemma_object_view(*fields);
            }
            match crate::json::get_field(fields, "task_id") {
                Some(JsonValue::String(t)) => {
                    let c = chars_of(t.as_str());
                    chars_eq(&c, task_id)
                },
                _ => false,
            }
        },
        _ => false,
    }
}

/// Keeps, in order, the rows that belong to the Task.
pub fn select_task_changes(rows: Vec<JsonValue>, task_id: &Vec<char>) -> (r: Vec<JsonValue>)
    ensures
        crate::json::items_view(r@) == rows_of_task(crate::json::items_view(rows@), task_id@),
{
    let ghost all = crate::json::items_view(rows@);
    let mut kept: Vec<JsonValue> = Vec::new();
    let mut rows = rows;
    let n = rows.len();
    let mut i: usize = 0;
    proof {
        assert(all.subrange(0, 0) =~= Seq::<JsonView>::empty());
        assert(crate::json::items_view(kept@) =~= Seq::<JsonView>::empty());
    }
    while i < n
        invariant
            n == all.len(),
            i <= n,
            rows@.len() == n - i,
            forall|j: int| 0 <= j < n - i ==> (#[trigger] rows@[j]).jv() == all[i + j],
            crate::json::items_view(kept@) == rows_of_task(all.subrange(0, i as int), task_id@),
        decreases n - i,
    {
        let row = rows.remove(0);
        assert(row.jv() == all[i as int]);
        let ghost prefix = all.subrange(0, i + 1);
        assert(prefix.drop_last() =~= all.subrange(0, i as int));
        if row_task_matches(&row, task_id) {
            let ghost before = kept@;
            kept.push(row);
            assert(crate::json::items_view(kept@) =~= crate::json::items_view(before).push(all[i as int]));
        }
        i = i + 1;
    }
    assert(all.subrange(0, n as int) =~= all);
    kept
}

/// A store of Changes, supplied by callers.
pub trait ChangeStore {
    fn list_changes(&self) -> PlanStoreResult<Vec<JsonValue>>;

    /// The Changes of one Task: a blank Task id is refused; otherwise the
    /// listed rows whose `task_id` is the trimmed Task id, in order.
    fn list_changes_for_task(&self, task_id: &str) -> (r: PlanStoreResult<Vec<JsonValue>>)
        ensures
            spec_normalize_text(task_id@) is None ==> (r matches Err(PlanStoreError::Invalid(m))
                && m@ == "task_id must not be empty."@),
            r matches Ok(rows) ==> forall|i: int|
                0 <= i < rows@.len() ==> row_task_id((#[trigger] rows@[i]).jv()) == spec_normalize_text(
                    task_id@,
                ),
        default_ensures
            spec_normalize_text(task_id@) is Some ==> (r matches Ok(kept) ==> exists|all: Vec<JsonValue>|
                call_ensures(Self::list_changes, (self,), Ok::<Vec<JsonValue>, PlanStoreError>(all))
                    && crate::json::items_view(kept@) == rows_of_task(
                    crate::json::items_view(all@),
                    spec_normalize_text(task_id@)->0,
                )),
            spec_normalize_text(task_id@) is Some ==> (r matches Err(e) ==> call_ensures(
                Self::list_changes,
                (self,),
                Err::<Vec<JsonValue>, PlanStoreError>(e),
            )),
    {
        let trimmed = trim_str(task_id);
        if trimmed.len() == 0 {
            return Err(PlanStoreError::Invalid(owned("task_id must not be empty.")));
        }
        match self.list_changes() {
            Ok(rows) => {
                let kept = select_task_changes(rows, &trimmed);
                proof {
                    lemma_rows_of_task_match(crate::json::items_view(rows@), trimmed@);
                    assert forall|i: int| 0 <= i < kept@.len() implies row_task_id(
                        (#[trigger] kept@[i]).jv(),
                    ) == spec_normalize_text(task_id@) by {
                        assert(crate::json::items_view(kept@)[i] == kept@[i].jv());
                    }
                }
                Ok(kept)
            },
            Err(e) => Err(e),
        }
    }

    fn get_change(&self, change_id: &str) -> PlanStoreResult<JsonValue>;

    fn allocate_change_identity(&self, repo_name: &str, namespace_prefix: Option<&str>) -> PlanStoreResult<
        JsonValue,
    >;

    fn create_change(
        &self,
        task_id: &str,
        repo_name: &str,
        title: &str,
        base_line: &str,
        namespace_prefix: Option<&str>,
        fork_snapshot_id: Option<&str>,
    ) -> PlanStoreResult<JsonValue>;

    fn create_change_explicit(
        &self,
        change_id: &str,
        task_id: &str,
        repo_name: &str,
        title: &str,
        base_line: &str,
        change_seq: Option<i64>,
        identity_source: Option<&str>,
        fork_snapshot_id: Option<&str>,
        forked_from_line: Option<&str>,
        status: Option<&str>,
        publication_state: Option<&str>,
    ) -> PlanStoreResult<JsonValue>;

    fn close_change(&self, change_id: &str, status: &str) -> PlanStoreResult<JsonValue>;

    fn reopen_change_as_draft(&self, change_id: &str) -> PlanStoreResult<JsonValue>;

    fn land_change(
        &self,
        change_id: &str,
        target_line: &str,
        landed_snapshot_id: &str,
        pre_land_target_snapshot_id: Option<&str>,
    ) -> PlanStoreResult<JsonValue>;

    fn mark_change_published(
        &self,
        change_id: &str,
        remote_name: Option<&str>,
        published_change_id: Option<&str>,
        allow_landed: bool,
    ) -> PlanStoreResult<JsonValue>;
}

proof fn lemma_rows_of_task_match(rows: Seq<JsonView>, task_id: Seq<char>)
    ensures
        forall|i: int|
            0 <= i < rows_of_task(rows, task_id).len() ==> row_task_id(
                #[trigger] rows_of_task(rows, task_id)[i],
            ) == Some(task_id),
    decreases rows.len(),
{
    if rows.len() > 0 {
        lemma_rows_of_task_match(rows.drop_last(), task_id);
    }
}

/// What the store's own `list_changes` returns for these arguments.
pub fn list_changes_with_change_store<S: ChangeStore>(store: &S) -> (r: PlanStoreResult<Vec<JsonValue>>)
    ensures
        call_ensures(S::list_changes, (store,), r),
{
    store.list_changes()
}

/// The Changes of one Task, as the store lists them.
pub fn list_changes_for_task_with_change_store<S: ChangeStore>(store: &S, task_id: &str) -> (r:
    PlanStoreResult<Vec<JsonValue>>)
    ensures
        call_ensures(S::list_changes_for_task, (store, task_id), r),
        spec_normalize_text(task_id@) is None ==> (r matches Err(PlanStoreError::Invalid(m)) && m@
            == "task_id must not be empty."@),
        r matches Ok(rows) ==> forall|i: int|
            0 <= i < rows@.len() ==> row_task_id((#[trigger] rows@[i]).jv()) == spec_normalize_text(
                task_id@,
            ),
{
    store.list_changes_for_task(task_id)
}

/// What the store's own `get_change` returns for these arguments.
pub fn get_change_with_change_store<S: ChangeStore>(store: &S, change_id: &str) -> (r: PlanStoreResult<
    JsonValue,
>)
    ensures
        call_ensures(S::get_change, (store, change_id), r),
{
    store.get_change(change_id)
}

/// What the store's own `allocate_change_identity` returns for these arguments.
pub fn allocate_change_identity_with_change_store<S: ChangeStore>(
    store: &S,
    repo_name: &str,
    namespace_prefix: Option<&str>,
) -> (r: PlanStoreResult<JsonValue>)
    ensures
        call_ensures(S::allocate_change_identity, (store, repo_name, namespace_prefix), r),
{
    store.allocate_change_identity(repo_name, namespace_prefix)
}

/// What the store's own `create_change` returns for these arguments.
pub fn create_change_with_change_store<S: ChangeStore>(
    store: &S,
    task_id: &str,
    repo_name: &str,
    title: &str,
    base_line: &str,
    namespace_prefix: Option<&str>,
    fork_snapshot_id: Option<&str>,
) -> (r: PlanStoreResult<JsonValue>)
    ensures
        call_ensures(S::create_change, (store, task_id, repo_name, title, base_line, namespace_prefix, fork_snapshot_id), r),
{
    store.create_change(task_id, repo_name, title, base_line, namespace_prefix, fork_snapshot_id)
}

/// What the store's own `create_change_explicit` returns for these arguments.
pub fn create_change_explicit_with_change_store<S: ChangeStore>(
    store: &S,
    change_id: &str,
    task_id: &str,
    repo_name: &str,
    title: &str,
    base_line: &str,
    change_seq: Option<i64>,
    identity_source: Option<&str>,
    fork_snapshot_id: Option<&str>,
    forked_from_line: Option<&str>,
    status: Option<&str>,
    publication_state: Option<&str>,
) -> (r: PlanStoreResult<JsonValue>)
    ensures
        call_ensures(S::create_change_explicit, (store, change_id, task_id, repo_name, title, base_line, change_seq, identity_source, fork_snapshot_id, forked_from_line, status, publication_state), r),
{
    store.create_change_explicit(change_id, task_id, repo_name, title, base_line, change_seq, identity_source, fork_snapshot_id, forked_from_line, status, publication_state)
}

/// What the store's own `close_change` returns for these arguments.
pub fn close_change_with_change_store<S: ChangeStore>(store: &S, change_id: &str, status: &str) -> (r: PlanStoreResult<
    JsonValue,
>)
    ensures
        call_ensures(S::close_change, (store, change_id, status), r),
{
    store.close_change(change_id, status)
}

/// What the store's own `reopen_change_as_draft` returns for these arguments.
pub fn reopen_change_as_draft_with_change_store<S: ChangeStore>(store: &S, change_id: &str) -> (r: PlanStoreResult<
    JsonValue,
>)
    ensures
        call_ensures(S::reopen_change_as_draft, (store, change_id), r),
{
    store.reopen_change_as_draft(change_id)
}

/// What the store's own `land_change` returns for these arguments.
pub fn land_change_with_change_store<S: ChangeStore>(
    store: &S,
    change_id: &str,
    target_line: &str,
    landed_snapshot_id: &str,
    pre_land_target_snapshot_id: Option<&str>,
) -> (r: PlanStoreResult<JsonValue>)
    ensures
        call_ensures(S::land_change, (store, change_id, target_line, landed_snapshot_id, pre_land_target_snapshot_id), r),
{
    store.land_change(change_id, target_line, landed_snapshot_id, pre_land_target_snapshot_id)
}

/// What the store's own `mark_change_published` returns for these arguments.
pub fn mark_change_published_with_change_store<S: ChangeStore>(
    store: &S,
    change_id: &str,
    remote_name: Option<&str>,
    published_change_id: Option<&str>,
    allow_landed: bool,
) -> (r: PlanStoreResult<JsonValue>)
    ensures
        call_ensures(S::mark_change_published, (store, change_id, remote_name, published_change_id, allow_landed), r),
{
    store.mark_change_published(change_id, remote_name, published_change_id, allow_landed)
}

} // verus!
