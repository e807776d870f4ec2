use ait_core::generation::upgrade_plan::{
    check_orphaned_source_indexes, upgrade_file_action, UpgradeFileAction,
};

fn names(list: &[&str]) -> Vec<String> {
    list.iter().map(|name| name.to_string()).collect()
}

#[test]
fn source_files_are_widened_rebuilt_or_copied() {
    match upgrade_file_action("task.bin") {
        UpgradeFileAction::Convert(plan) => {
            assert_eq!(plan.name, "task.bin");
            assert_eq!(plan.source_record_size, 44);
            assert_eq!(plan.target_record_size, 64);
        }
        other => panic!("task.bin must be widened, got {other:?}"),
    }
    assert!(matches!(upgrade_file_action("tree_id.idx"), UpgradeFileAction::RebuildIndex));
    assert!(matches!(upgrade_file_action("tree.bin"), UpgradeFileAction::Copy));
    assert!(matches!(upgrade_file_action("stash.bin"), UpgradeFileAction::Copy));
}

#[test]
fn every_source_identity_index_must_be_rebuilt() {
    check_orphaned_source_indexes(
        &names(&["blob_id.idx", "tree_id.idx"]),
        &names(&["tree_id.idx", "blob_id.idx", "snapshot_id.idx"]),
    )
    .unwrap();
    check_orphaned_source_indexes(&[], &[]).unwrap();
    let error = check_orphaned_source_indexes(
        &names(&["tree_pack_id.idx", "blob_id.idx", "tree_pack_id.idx", "tree_id.idx"]),
        &names(&["tree_id.idx"]),
    )
    .unwrap_err();
    assert_eq!(
        error,
        "u32-time-v0 source contains content indexes without authoritative record files: blob_id.idx, tree_pack_id.idx"
    );
}
