use ait_core::change_store::{list_changes_for_task_with_change_store, ChangeStore, PlanStoreError, PlanStoreResult};
use ait_core::json::{JsonField, JsonValue};
use ait_core::read::{
    BinaryDbSnapshotReader, BinaryTreeRootLocator, BinaryTreeRootResolver,
    StaticBinaryTreeRootResolver,
};
use ait_core::stores::BinaryDbTreeStore;

#[test]
fn static_resolver_reads_back_what_was_inserted() {
    let resolver = StaticBinaryTreeRootResolver::new()
        .with_snapshot_root("SNP-1".to_string(), BinaryTreeRootLocator::new("TRE-1".to_string()))
        .with_snapshot_root("SNP-2".to_string(), BinaryTreeRootLocator::new("TRE-2".to_string()))
        .with_snapshot_root("SNP-1".to_string(), BinaryTreeRootLocator::new("TRE-3".to_string()));
    assert_eq!(
        resolver.resolve_snapshot_root("SNP-1").unwrap(),
        Some(BinaryTreeRootLocator::new("TRE-3".to_string()))
    );
    assert_eq!(
        resolver.resolve_snapshot_root("SNP-2").unwrap().unwrap().tree_id,
        "TRE-2"
    );
    assert!(resolver.resolve_snapshot_root("SNP-9").unwrap().is_none());
    assert!(StaticBinaryTreeRootResolver::default()
        .resolve_snapshot_root("SNP-1")
        .unwrap()
        .is_none());
}

#[test]
fn snapshot_reader_keeps_its_store_and_roots() {
    let store = BinaryDbTreeStore::<u8, 1>::new(7, "/repo".to_string());
    let mut reader = BinaryDbSnapshotReader::new(store);
    reader.insert_snapshot_root("SNP-A".to_string(), BinaryTreeRootLocator::new("TRE-A".to_string()));
    assert_eq!(*reader.tree_store().db(), 7);
    assert_eq!(
        reader.root_resolver().resolve_snapshot_root("SNP-A").unwrap().unwrap().tree_id,
        "TRE-A"
    );
    let reader = BinaryDbSnapshotReader::with_root_resolver(
        BinaryDbTreeStore::<u8, 1>::new(8, "/other".to_string()),
        StaticBinaryTreeRootResolver::new(),
    );
    assert_eq!(reader.tree_store().repo_root(), "/other");
}

struct Rows(Vec<(&'static str, &'static str)>);

fn row(task_id: &str, change_id: &str) -> JsonValue {
    JsonValue::Object(vec![
        JsonField {
            key: "task_id".to_string(),
            value: JsonValue::String(task_id.to_string()),
        },
        JsonField {
            key: "change_id".to_string(),
            value: JsonValue::String(change_id.to_string()),
        },
    ])
}

fn change_id_of(value: &JsonValue) -> String {
    match value {
        JsonValue::Object(fields) => fields
            .iter()
            .find(|field| field.key == "change_id")
            .and_then(|field| match &field.value {
                JsonValue::String(text) => Some(text.clone()),
                _ => None,
            })
            .unwrap(),
        _ => panic!("not an object"),
    }
}

fn unsupported() -> PlanStoreResult<JsonValue> {
    Err(PlanStoreError::Failed("unsupported".to_string()))
}

impl ChangeStore for Rows {
    fn list_changes(&self) -> PlanStoreResult<Vec<JsonValue>> {
        Ok(self.0.iter().map(|(task, change)| row(task, change)).collect())
    }
    fn get_change(&self, _change_id: &str) -> PlanStoreResult<JsonValue> {
        unsupported()
    }
    fn allocate_change_identity(&self, _repo_name: &str, _namespace_prefix: Option<&str>) -> PlanStoreResult<JsonValue> {
        unsupported()
    }
    fn create_change(
        &self,
        _task_id: &str,
        _repo_name: &str,
        _title: &str,
        _base_line: &str,
        _namespace_prefix: Option<&str>,
        _fork_snapshot_id: Option<&str>,
    ) -> PlanStoreResult<JsonValue> {
        unsupported()
    }
    fn create_change_explicit(
        &self,
        _change_id: &str,
        _task_id: &str,
        _repo_name: &str,
        _title: &str,
        _base_line: &str,
        _change_seq: Option<i64>,
        _identity_source: Option<&str>,
        _fork_snapshot_id: Option<&str>,
        _forked_from_line: Option<&str>,
        _status: Option<&str>,
        _publication_state: Option<&str>,
    ) -> PlanStoreResult<JsonValue> {
        unsupported()
    }
    fn close_change(&self, _change_id: &str, _status: &str) -> PlanStoreResult<JsonValue> {
        unsupported()
    }
    fn reopen_change_as_draft(&self, _change_id: &str) -> PlanStoreResult<JsonValue> {
        unsupported()
    }
    fn land_change(
        &self,
        _change_id: &str,
        _target_line: &str,
        _landed_snapshot_id: &str,
        _pre_land_target_snapshot_id: Option<&str>,
    ) -> PlanStoreResult<JsonValue> {
        unsupported()
    }
    fn mark_change_published(
        &self,
        _change_id: &str,
        _remote_name: Option<&str>,
        _published_change_id: Option<&str>,
        _allow_landed: bool,
    ) -> PlanStoreResult<JsonValue> {
        unsupported()
    }
}

#[test]
fn changes_of_a_task_keep_order_and_refuse_blank_tasks() {
    let store = Rows(vec![("T-1", "C-1"), ("T-2", "C-2"), ("T-1", "C-3")]);
    let rows = list_changes_for_task_with_change_store(&store, " T-1 ").unwrap();
    let ids: Vec<String> = rows.iter().map(change_id_of).collect();
    assert_eq!(ids, vec!["C-1".to_string(), "C-3".to_string()]);
    match list_changes_for_task_with_change_store(&store, "  ") {
        Err(PlanStoreError::Invalid(message)) => assert_eq!(message, "task_id must not be empty."),
        _ => panic!("a blank task must be refused"),
    }
}
