use ait_core::generation::batches::balanced_tree_pack_batches;
use ait_core::read::BinaryTreePackView;
use ait_core::schema::records::BinaryTreePackRecord;

fn view(index: u32, tree_count: u32) -> BinaryTreePackView {
    BinaryTreePackView {
        tree_pack_index: index,
        record: BinaryTreePackRecord {
            pack_meta: BinaryTreePackRecord::META_READY,
            pack_format_kind: 1,
            pack_hash_hi16: 0,
            pack_hash_lo32: index,
            first_tree_index: 0,
            tree_count,
            total_bytes: 1,
            created_at_s: 1,
        },
        pack_id: format!("TPK-{index:012X}"),
        pack_path: String::new(),
        pack_format: "zstd".to_string(),
    }
}

fn indexes(batches: &[Vec<BinaryTreePackView>]) -> Vec<Vec<u32>> {
    batches
        .iter()
        .map(|batch| batch.iter().map(|pack| pack.tree_pack_index).collect())
        .collect()
}

fn packs() -> Vec<BinaryTreePackView> {
    vec![view(0, 5), view(1, 1), view(2, 3), view(3, 3)]
}

#[test]
fn heaviest_packs_go_to_the_lightest_worker() {
    let batches = balanced_tree_pack_batches(packs(), 2);
    assert_eq!(indexes(&batches), vec![vec![0, 1], vec![2, 3]]);
}

#[test]
fn workers_are_bounded_by_packs_and_at_least_one() {
    assert_eq!(
        indexes(&balanced_tree_pack_batches(packs(), 10)),
        vec![vec![0], vec![2], vec![3], vec![1]]
    );
    assert_eq!(
        indexes(&balanced_tree_pack_batches(packs(), 0)),
        vec![vec![0, 1, 2, 3]]
    );
    assert!(balanced_tree_pack_batches(Vec::new(), 4).is_empty());
}

#[test]
fn every_pack_lands_in_exactly_one_batch() {
    let input = vec![view(4, 2), view(1, 9), view(7, 2), view(2, 2), view(9, 0)];
    let batches = balanced_tree_pack_batches(input.clone(), 3);
    assert_eq!(batches.len(), 3);
    let mut seen: Vec<u32> = batches.iter().flatten().map(|p| p.tree_pack_index).collect();
    seen.sort();
    assert_eq!(seen, vec![1, 2, 4, 7, 9]);
    for batch in &batches {
        assert!(batch.windows(2).all(|w| w[0].tree_pack_index <= w[1].tree_pack_index));
    }
}
