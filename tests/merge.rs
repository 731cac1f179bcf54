use gguf_merge::{
    append_padded, check_meta_size, check_preconditions, ggml_pad, merge_kv, plan_merge,
    plan_tensors, write_zeros, CopyStep, KvEntry, KvValue, MergeError, PartMeta,
    SplitCountMismatch, TensorInfo, GGUF_DEFAULT_ALIGNMENT,
};

fn entry(key: &str, value: KvValue) -> KvEntry {
    KvEntry { key: key.to_string(), value }
}

fn tensor(name: &str, n_bytes: usize, offset: usize) -> TensorInfo {
    TensorInfo { name: name.to_string(), n_bytes, offset }
}

fn part(tensors: Vec<TensorInfo>, data_offset: usize) -> PartMeta {
    PartMeta { tensors, data_offset }
}

fn kv_with_split_count(n: u16) -> Vec<KvEntry> {
    vec![
        entry("general.architecture", KvValue::Str("llama".to_string())),
        entry("split.count", KvValue::U16(n)),
        entry("general.file_type", KvValue::U32(1)),
    ]
}

fn three_parts() -> Vec<PartMeta> {
    vec![
        part(vec![tensor("t0", 10, 0)], 96),
        part(vec![tensor("t1", 17, 0)], 128),
        part(vec![tensor("t2", 5, 0)], 64),
    ]
}

#[test]
fn pad_rounds_up_to_alignment() {
    assert_eq!(ggml_pad(0, 16), 0);
    assert_eq!(ggml_pad(1, 16), 16);
    assert_eq!(ggml_pad(10, 16), 16);
    assert_eq!(ggml_pad(16, 16), 16);
    assert_eq!(ggml_pad(17, 16), 32);
    assert_eq!(ggml_pad(5, 32), 32);
    assert_eq!(ggml_pad(7, 1), 7);
    assert_eq!(GGUF_DEFAULT_ALIGNMENT, 16);
}

#[test]
fn pad_near_the_top_of_usize() {
    assert_eq!(ggml_pad(usize::MAX - 15, 16), usize::MAX - 15);
}

#[test]
fn write_zeros_appends() {
    let mut out = vec![7u8, 8];
    write_zeros(&mut out, 3);
    assert_eq!(out, vec![7, 8, 0, 0, 0]);
    write_zeros(&mut out, 0);
    assert_eq!(out, vec![7, 8, 0, 0, 0]);
}

#[test]
fn append_padded_pads_to_sixteen() {
    let mut out = Vec::new();
    let payload: Vec<u8> = (1..=10).collect();
    append_padded(&mut out, &payload);
    assert_eq!(out.len(), 16);
    assert_eq!(&out[..10], &payload[..]);
    assert!(out[10..].iter().all(|b| *b == 0));

    let aligned = vec![9u8; 16];
    append_padded(&mut out, &aligned);
    assert_eq!(out.len(), 32);
    assert_eq!(&out[16..], &aligned[..]);

    append_padded(&mut out, &[]);
    assert_eq!(out.len(), 32);
}

#[test]
fn preconditions() {
    assert_eq!(check_preconditions(2, true), Err(MergeError::OutputExists));
    assert_eq!(check_preconditions(0, true), Err(MergeError::OutputExists));
    assert_eq!(check_preconditions(0, false), Err(MergeError::NoParts));
    assert_eq!(check_preconditions(1, false), Ok(()));
}

#[test]
fn meta_size_check() {
    assert_eq!(check_meta_size(480, 480), Ok(()));
    assert_eq!(
        check_meta_size(480, 496),
        Err(MergeError::SizeMismatch { reserved: 480, actual: 496 })
    );
}

#[test]
fn kv_split_count_forced_to_zero() {
    let (kv, declared) = merge_kv(kv_with_split_count(3)).unwrap();
    assert_eq!(declared, 3);
    assert_eq!(kv, kv_with_split_count(0));
}

#[test]
fn kv_zero_split_count_stays_zero() {
    let (kv, declared) = merge_kv(kv_with_split_count(0)).unwrap();
    assert_eq!(declared, 0);
    assert_eq!(kv, kv_with_split_count(0));
}

#[test]
fn kv_missing_split_count() {
    let kv = vec![entry("general.architecture", KvValue::Str("llama".to_string()))];
    assert_eq!(merge_kv(kv), Err(MergeError::MissingMetadata));
    assert_eq!(merge_kv(Vec::new()), Err(MergeError::MissingMetadata));
}

#[test]
fn kv_split_count_of_wrong_type() {
    let kv = vec![entry("split.count", KvValue::U32(3))];
    assert_eq!(merge_kv(kv), Err(MergeError::Format { part: 0 }));
}

#[test]
fn kv_similar_key_is_not_split_count() {
    let kv = vec![entry("split.counts", KvValue::U16(3)), entry("split.count", KvValue::U16(2))];
    let (out, declared) = merge_kv(kv).unwrap();
    assert_eq!(declared, 2);
    assert_eq!(out[0], entry("split.counts", KvValue::U16(3)));
    assert_eq!(out[1], entry("split.count", KvValue::U16(0)));
}

#[test]
fn three_part_scenario() {
    let parts = three_parts();
    let plan = plan_merge(kv_with_split_count(3), &parts).unwrap();
    let names: Vec<&str> = plan
        .steps
        .iter()
        .map(|s| parts[s.part].tensors[s.index].name.as_str())
        .collect();
    assert_eq!(names, vec!["t0", "t1", "t2"]);
    assert_eq!(
        plan.steps,
        vec![
            CopyStep { part: 0, index: 0, src_offset: 96, n_bytes: 10, out_offset: 0 },
            CopyStep { part: 1, index: 0, src_offset: 128, n_bytes: 17, out_offset: 16 },
            CopyStep { part: 2, index: 0, src_offset: 64, n_bytes: 5, out_offset: 48 },
        ]
    );
    assert_eq!(plan.data_size, 64);
    assert_eq!(plan.kv, kv_with_split_count(0));
    assert_eq!(plan.split_count_mismatch, None);

    // the data region: t0 + 6 zeros, t1 + 15 zeros, t2 + 11 zeros
    let payloads: Vec<Vec<u8>> = vec![vec![1u8; 10], vec![2u8; 17], vec![3u8; 5]];
    let mut region = Vec::new();
    for p in &payloads {
        append_padded(&mut region, p);
    }
    let mut expected = Vec::new();
    expected.extend(vec![1u8; 10]);
    expected.extend(vec![0u8; 6]);
    expected.extend(vec![2u8; 17]);
    expected.extend(vec![0u8; 15]);
    expected.extend(vec![3u8; 5]);
    expected.extend(vec![0u8; 11]);
    assert_eq!(region, expected);
    assert_eq!(region.len(), plan.data_size);
}

#[test]
fn round_trip_through_region() {
    let parts = vec![
        part(vec![tensor("a", 3, 0), tensor("b", 20, 16)], 64),
        part(vec![tensor("c", 16, 0), tensor("d", 1, 16)], 32),
    ];
    let plan = plan_merge(kv_with_split_count(2), &parts).unwrap();
    let payloads: Vec<Vec<u8>> = plan
        .steps
        .iter()
        .enumerate()
        .map(|(k, s)| (0..s.n_bytes).map(|b| (k * 40 + b) as u8 + 1).collect())
        .collect();
    let mut region = Vec::new();
    for p in &payloads {
        append_padded(&mut region, p);
    }
    assert_eq!(region.len(), plan.data_size);
    for (k, s) in plan.steps.iter().enumerate() {
        assert_eq!(s.out_offset % 16, 0);
        assert_eq!(&region[s.out_offset..s.out_offset + s.n_bytes], &payloads[k][..]);
    }
    let offsets: Vec<usize> = plan.steps.iter().map(|s| s.out_offset).collect();
    assert_eq!(offsets, vec![0, 16, 48, 64]);
    assert_eq!(plan.data_size, 80);
    let sources: Vec<usize> = plan.steps.iter().map(|s| s.src_offset).collect();
    assert_eq!(sources, vec![64, 80, 32, 48]);
}

#[test]
fn order_is_part_then_tensor() {
    let parts = vec![
        part(vec![tensor("z", 1, 0), tensor("y", 1, 16)], 0),
        part(vec![], 0),
        part(vec![tensor("x", 1, 0)], 0),
    ];
    let plan = plan_merge(kv_with_split_count(3), &parts).unwrap();
    let refs: Vec<(usize, usize)> = plan.steps.iter().map(|s| (s.part, s.index)).collect();
    assert_eq!(refs, vec![(0, 0), (0, 1), (2, 0)]);
}

#[test]
fn padding_between_steps() {
    let parts = vec![part(vec![tensor("a", 0, 0), tensor("b", 31, 0), tensor("c", 32, 0)], 0)];
    let plan = plan_merge(kv_with_split_count(1), &parts).unwrap();
    let offsets: Vec<usize> = plan.steps.iter().map(|s| s.out_offset).collect();
    assert_eq!(offsets, vec![0, 0, 32]);
    assert_eq!(plan.data_size, 64);
    for (k, s) in plan.steps.iter().enumerate() {
        let next = plan.steps.get(k + 1).map(|n| n.out_offset).unwrap_or(plan.data_size);
        assert!(next - s.out_offset >= s.n_bytes);
        assert!(next - s.out_offset - s.n_bytes < 16);
        assert_eq!(next % 16, 0);
    }
}

#[test]
fn split_count_mismatch_is_reported() {
    let plan = plan_merge(kv_with_split_count(5), &three_parts()).unwrap();
    assert_eq!(plan.split_count_mismatch, Some(SplitCountMismatch { declared: 5, supplied: 3 }));
    assert_eq!(plan.kv, kv_with_split_count(0));
    assert_eq!(plan.steps.len(), 3);
}

#[test]
fn plan_is_deterministic() {
    let parts = three_parts();
    let a = plan_merge(kv_with_split_count(3), &parts).unwrap();
    let b = plan_merge(kv_with_split_count(3), &parts).unwrap();
    assert_eq!(a.kv, b.kv);
    assert_eq!(a.steps, b.steps);
    assert_eq!(a.data_size, b.data_size);
    assert_eq!(a.split_count_mismatch, b.split_count_mismatch);
}

#[test]
fn missing_split_count_rejects_plan() {
    let kv = vec![entry("general.name", KvValue::Str("m".to_string()))];
    assert_eq!(plan_merge(kv, &three_parts()).unwrap_err(), MergeError::MissingMetadata);
}

#[test]
fn no_parts_rejects_plan() {
    assert_eq!(plan_merge(kv_with_split_count(0), &Vec::new()).unwrap_err(), MergeError::NoParts);
}

#[test]
fn duplicate_tensor_names() {
    let parts = vec![
        part(vec![tensor("t0", 4, 0), tensor("t1", 4, 16)], 0),
        part(vec![tensor("t2", 4, 0), tensor("t0", 4, 16)], 0),
    ];
    assert_eq!(
        plan_merge(kv_with_split_count(2), &parts).unwrap_err(),
        MergeError::DuplicateTensor { part: 1, index: 1 }
    );
    let same_part = vec![part(vec![tensor("w", 4, 0), tensor("w", 4, 16)], 0)];
    assert_eq!(
        plan_tensors(&same_part).unwrap_err(),
        MergeError::DuplicateTensor { part: 0, index: 1 }
    );
}

#[test]
fn layout_too_large() {
    let huge = vec![part(vec![tensor("big", usize::MAX, 0)], 0)];
    assert_eq!(plan_tensors(&huge).unwrap_err(), MergeError::LayoutTooLarge);
    let two = vec![part(vec![tensor("a", usize::MAX / 2, 0), tensor("b", usize::MAX / 2, 0)], 0)];
    assert_eq!(plan_tensors(&two).unwrap_err(), MergeError::LayoutTooLarge);
    let far = vec![part(vec![tensor("a", 1, 1)], usize::MAX)];
    assert_eq!(plan_tensors(&far).unwrap_err(), MergeError::LayoutTooLarge);
}

#[test]
fn empty_parts_give_empty_region() {
    let parts = vec![part(vec![], 32), part(vec![], 32)];
    let (steps, size) = plan_tensors(&parts).unwrap();
    assert!(steps.is_empty());
    assert_eq!(size, 0);
}
