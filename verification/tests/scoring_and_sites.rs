use lab::blocks::{normalize_duplicate_block_ids, BlockIds};
use lab::observatory::{infer_observatory, CtaoObservatory};
use lab::scoring::{metric_field, parse_objectives, split_weight};

#[test]
fn score_metrics_map_to_json_fields() {
    let f = metric_field("task_ratio").unwrap();
    assert_eq!((f.parent, f.field), (None, "scheduled_task_ratio"));
    let f = metric_field("fragmentation_index").unwrap();
    assert_eq!((f.parent, f.field), (Some("fragmentation"), "fragmentation_index"));
    assert_eq!(metric_field("runtime_ms").unwrap().field, "scheduler_runtime_ms");
    assert!(metric_field("composite_score").unwrap_err().contains("registry rank"));
    assert_eq!(metric_field("nope").unwrap_err(), "unsupported metric 'nope'");
}

#[test]
fn objectives_default_and_parse_in_order() {
    let d = parse_objectives(&vec![], &vec![]).unwrap();
    assert_eq!(d.len(), 4);
    assert_eq!(d[3], ("runtime_ms".to_string(), false));
    let o = parse_objectives(&vec!["utilization".to_string()], &vec!["runtime_ms".to_string()]).unwrap();
    assert_eq!(o, vec![("utilization".to_string(), true), ("runtime_ms".to_string(), false)]);
    assert_eq!(
        parse_objectives(&vec!["utilization".to_string()], &vec!["bogus".to_string()]).unwrap_err(),
        "unsupported metric 'bogus'"
    );
}

#[test]
fn weight_arguments_split_at_equals() {
    let (m, w) = split_weight(" utilization = 0.5 ").unwrap();
    assert_eq!((m.as_str(), w.as_str()), ("utilization", "0.5"));
    assert_eq!(split_weight("utilization").unwrap_err(), "invalid weight 'utilization', expected metric=value");
    assert_eq!(split_weight(" =1").unwrap_err(), "invalid weight ' =1', metric cannot be empty");
}

#[test]
fn observatory_is_inferred_from_names() {
    let none: Vec<Option<String>> = vec![];
    assert_eq!(infer_observatory("data/CTA-N", &none).unwrap(), CtaoObservatory::North);
    assert_eq!(infer_observatory("data/x", &vec![Some("cta_s_blocks.json".to_string())]).unwrap(), CtaoObservatory::South);
    assert_eq!(infer_observatory("data/lst", &none).unwrap(), CtaoObservatory::North);
    assert!(infer_observatory("data/CTA-N", &vec![Some("CTA-S.json".to_string())]).is_err());
    assert!(infer_observatory("data/x", &none).is_err());
    assert_eq!(CtaoObservatory::South.code(), "CTA-S");
    assert_eq!(CtaoObservatory::North.telescope_id(), 0);
}

#[test]
fn duplicate_block_ids_are_renamed_uniquely() {
    let mut blocks = vec![
        BlockIds { id: 42, task_ids: vec![42, 7] },
        BlockIds { id: 42, task_ids: vec![42] },
        BlockIds { id: 3, task_ids: vec![] },
    ];
    let renamed = normalize_duplicate_block_ids(&mut blocks);
    assert_eq!(renamed, 1);
    assert_eq!(blocks[0].id, 42);
    assert_ne!(blocks[1].id, 42);
    assert_ne!(blocks[1].id, 3);
    assert_eq!(blocks[1].task_ids, vec![blocks[1].id]);
    assert_eq!(blocks[0].task_ids, vec![42, 7]);
}

#[test]
fn normalize_duplicate_block_ids_keeps_ids_unique() {
    let mut blocks = vec![
        BlockIds { id: 42, task_ids: vec![42] },
        BlockIds { id: 42, task_ids: vec![42] },
    ];
    let renamed = normalize_duplicate_block_ids(&mut blocks);
    assert_eq!(renamed, 1);
    assert_eq!(blocks[0].id, 42);
    assert_ne!(blocks[1].id, 42);
    assert_eq!(blocks[1].task_ids[0], blocks[1].id);
}

#[test]
fn block_ids_at_the_top_of_the_range_are_kept_or_renamed_to_the_last_id() {
    let mut single = vec![BlockIds { id: u64::MAX, task_ids: vec![u64::MAX] }];
    assert_eq!(normalize_duplicate_block_ids(&mut single), 0);
    assert_eq!(single[0].id, u64::MAX);

    let top = u64::MAX - 1;
    let mut pair = vec![
        BlockIds { id: top, task_ids: vec![top] },
        BlockIds { id: top, task_ids: vec![top, 5] },
    ];
    assert_eq!(normalize_duplicate_block_ids(&mut pair), 1);
    assert_eq!(pair[1].id, u64::MAX);
    assert_eq!(pair[1].task_ids, vec![u64::MAX, 5]);
}
