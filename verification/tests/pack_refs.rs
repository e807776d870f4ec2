use ait_core::generation::pack_refs::referenced_pack_paths;

fn pack_record(meta: u8, hi: u16, lo: u32) -> Vec<u8> {
    let mut raw = vec![meta, 0];
    raw.extend_from_slice(&hi.to_le_bytes());
    raw.extend_from_slice(&lo.to_le_bytes());
    raw.extend_from_slice(&[0u8; 20]);
    raw
}

fn table(records: &[Vec<u8>]) -> Vec<u8> {
    let mut bytes = 1u32.to_le_bytes().to_vec();
    for record in records {
        bytes.extend_from_slice(record);
    }
    bytes
}

#[test]
fn referenced_packs_skip_tombstones_and_come_out_sorted_once() {
    let objects = table(&[
        pack_record(0, 0x00AB, 0x0000_0010),
        pack_record(0x80, 0x0000, 0x0000_0001),
        pack_record(0, 0x0001, 0x0000_0002),
        pack_record(0, 0x00AB, 0x0000_0010),
    ]);
    let trees = table(&[pack_record(0, 0, 0xFFFF_FFFF)]);
    let paths = referenced_pack_paths(Some(&objects), Some(&trees)).unwrap();
    assert_eq!(
        paths,
        vec![
            ".ait/objects/packs/PCK-000100000002.zstpack".to_string(),
            ".ait/objects/packs/PCK-00AB00000010.zstpack".to_string(),
            ".ait/objects/tree-packs/TPK-0000FFFFFFFF.zstpack".to_string(),
        ]
    );
}

#[test]
fn absent_pack_tables_reference_nothing() {
    assert_eq!(referenced_pack_paths(None, None).unwrap(), Vec::<String>::new());
}

#[test]
fn unreadable_pack_tables_are_refused() {
    let mut wrong_layout = table(&[pack_record(0, 0, 1)]);
    wrong_layout[0] = 2;
    assert!(referenced_pack_paths(Some(&wrong_layout), None)
        .unwrap_err()
        .contains("layout_id 1"));
    let mut misaligned = table(&[pack_record(0, 0, 1)]);
    misaligned.push(0);
    assert!(referenced_pack_paths(None, Some(&misaligned))
        .unwrap_err()
        .contains("28-byte records"));
    assert!(referenced_pack_paths(Some(&[1, 0]), None).is_err());
}
