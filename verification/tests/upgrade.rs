use ait_core::generation::upgrade::{
    target_record_count, time_width_plan, time_width_plans, validate_time_width_plan,
    widen_time_record, widen_time_record_file, TimeWidthPlan, U32_TIME_V0_SOURCE_SELECTOR, U64_SECOND_V0_TARGET_SELECTOR,
};

#[test]
fn every_predecessor_width_plan_is_exact() {
    for plan in time_width_plans() {
        validate_time_width_plan(&plan).unwrap();
    }
}

#[test]
fn widening_zero_extends_each_time_and_preserves_every_other_byte() {
    for plan in time_width_plans() {
        let mut source = (0..plan.source_record_size)
            .map(|index| (index % 251) as u8)
            .collect::<Vec<_>>();
        for (ordinal, offset) in plan.source_time_offsets.iter().enumerate() {
            let value = if ordinal == 0 {
                u32::MAX
            } else {
                0x0102_0304_u32.wrapping_add(ordinal as u32)
            };
            source[*offset..*offset + 4].copy_from_slice(&value.to_le_bytes());
        }
        let target = widen_time_record(&source, &plan).unwrap();
        let mut source_cursor = 0_usize;
        let mut target_cursor = 0_usize;
        for offset in &plan.source_time_offsets {
            let unchanged = offset - source_cursor;
            assert_eq!(
                &target[target_cursor..target_cursor + unchanged],
                &source[source_cursor..*offset],
                "{} changed non-time bytes",
                plan.name
            );
            target_cursor += unchanged;
            let source_time = u32::from_le_bytes(source[*offset..*offset + 4].try_into().unwrap());
            let target_time =
                u64::from_le_bytes(target[target_cursor..target_cursor + 8].try_into().unwrap());
            assert_eq!(target_time, u64::from(source_time), "{} time", plan.name);
            source_cursor = *offset + 4;
            target_cursor += 8;
        }
        assert_eq!(&target[target_cursor..], &source[source_cursor..]);
        assert_eq!(target.len(), plan.target_record_size);
    }
}

#[test]
fn source_selector_is_exact_and_stable() {
    assert_eq!(U32_TIME_V0_SOURCE_SELECTOR, "u32-time-v0");
    assert_eq!(U64_SECOND_V0_TARGET_SELECTOR, "u64-second-v0");
}

#[test]
fn plans_are_found_by_file_name() {
    let plan = time_width_plan("snapshot.bin").unwrap();
    assert_eq!(plan.source_record_size, 84);
    assert_eq!(plan.target_record_size, 88);
    assert_eq!(plan.source_time_offsets, vec![80]);
    assert!(time_width_plan("tree.bin").is_none());
    assert_eq!(time_width_plans().len(), 10);
}

#[test]
fn widening_rejects_wrong_sizes_and_inexact_plans() {
    let plan = time_width_plan("task.bin").unwrap();
    assert_eq!(
        widen_time_record(&[0_u8; 43], &plan).unwrap_err(),
        "task.bin source record has 43 bytes, expected 44"
    );
    let overlapping = TimeWidthPlan {
        name: "odd.bin",
        source_record_size: 12,
        target_record_size: 20,
        source_time_offsets: vec![0, 2],
    };
    assert_eq!(
        validate_time_width_plan(&overlapping).unwrap_err(),
        "odd.bin has an invalid timestamp offset 2"
    );
    let short_target = TimeWidthPlan {
        name: "odd.bin",
        source_record_size: 12,
        target_record_size: 14,
        source_time_offsets: vec![0],
    };
    assert_eq!(
        validate_time_width_plan(&short_target).unwrap_err(),
        "odd.bin target record size 14 disagrees with 1 declared timestamps"
    );
    assert!(widen_time_record(&[0_u8; 12], &short_target).is_err());
}

#[test]
fn widening_one_timestamp_gives_exact_bytes() {
    let plan = TimeWidthPlan {
        name: "one.bin",
        source_record_size: 6,
        target_record_size: 10,
        source_time_offsets: vec![1],
    };
    let widened = widen_time_record(&[9, 0x78, 0x56, 0x34, 0x12, 7], &plan).unwrap();
    assert_eq!(widened, vec![9, 0x78, 0x56, 0x34, 0x12, 0, 0, 0, 0, 7]);
}

#[test]
fn copied_tables_are_counted_by_their_record_size() {
    assert_eq!(target_record_count("local/tree.bin", 4 + 40).unwrap(), Some(2));
    assert_eq!(target_record_count("local/stash.bin", 4 + 16).unwrap(), Some(2));
    assert_eq!(target_record_count("local/blob.bin", 4 + 64).unwrap(), None);
    assert_eq!(target_record_count(".ait/objects/packs/a.zstpack", 9).unwrap(), None);
    assert_eq!(
        target_record_count("local/tree.bin", 2).unwrap_err(),
        "local/tree.bin is shorter than its layout header"
    );
    assert_eq!(
        target_record_count("local/tree.bin", 4 + 21).unwrap_err(),
        "local/tree.bin is misaligned for 20-byte records"
    );
}

#[test]
fn file_conversion_rejects_wrong_layout_and_misaligned_predecessor_without_output() {
    let plan = time_width_plan("task.bin").unwrap();

    let mut wrong_layout = 2_u32.to_le_bytes().to_vec();
    wrong_layout.extend(vec![0_u8; plan.source_record_size]);
    assert!(widen_time_record_file(&wrong_layout, &plan)
        .unwrap_err()
        .contains("source layout is not layout_id 1"));

    let mut misaligned = 1_u32.to_le_bytes().to_vec();
    misaligned.extend(vec![0_u8; plan.source_record_size - 1]);
    assert!(widen_time_record_file(&misaligned, &plan)
        .unwrap_err()
        .contains("non-empty explicit 44-byte u32-time-v0"));
}
