use lab::query::{default_sort_keys, metric_col, parse_sort_key, registry_path, sort_expr, BestOpts, SortDirection, SortKey};
use lab::registry::{
    best_sql, list_sql, prefix_pattern, resolve_prefix_outcome, schedule_insert_action, ListFilter,
    ScheduleInsert, ROW_SELECT,
};

fn composite_rejected() {
    let err = parse_sort_key("composite_score:desc").unwrap_err();
    assert!(err.contains("query-time score"));
}

fn missing_prefix() {
    let result = resolve_prefix_outcome("nonexistentprefix", &vec![]);
    assert!(result.is_err());
    assert!(result.unwrap_err().contains("no run found"));
}

#[test]
fn registry_composite_score_is_not_a_registry_sort_metric() {
    composite_rejected();
}

#[test]
fn mod_composite_score_is_not_a_registry_sort_metric() {
    composite_rejected();
}

#[test]
fn registry_prefix_resolution_errors_on_missing() {
    missing_prefix();
}

#[test]
fn mod_prefix_resolution_errors_on_missing() {
    missing_prefix();
}

#[test]
fn prefix_resolution_outcomes() {
    let one = vec!["abcdef".to_string()];
    assert_eq!(resolve_prefix_outcome("abc", &one).unwrap(), "abcdef");
    let two = vec!["abc1".to_string(), "abc2".to_string()];
    assert_eq!(
        resolve_prefix_outcome("abc", &two).unwrap_err(),
        "ambiguous prefix 'abc' matches 2 runs"
    );
    assert_eq!(
        resolve_prefix_outcome("zz", &vec![]).unwrap_err(),
        "no run found matching prefix 'zz'"
    );
    assert_eq!(prefix_pattern("abc"), "abc*");
    assert_eq!(prefix_pattern("a_%*?[b]"), "a_%[*][?][[]b]*");
}

#[test]
fn sort_keys_parse_with_directions_and_defaults() {
    let k = parse_sort_key(" utilization : asc ").unwrap();
    assert_eq!(k.metric, "utilization");
    assert_eq!(k.direction, SortDirection::Asc);
    let k = parse_sort_key("runtime_ms").unwrap();
    assert_eq!(k.direction, SortDirection::Asc);
    let k = parse_sort_key("scheduled_priority_ratio").unwrap();
    assert_eq!(k.direction, SortDirection::Desc);
    assert_eq!(parse_sort_key(":desc").unwrap_err(), "sort key metric cannot be empty");
    assert_eq!(
        parse_sort_key("utilization:up").unwrap_err(),
        "invalid sort direction 'up' in 'utilization:up', expected asc or desc"
    );
    assert!(parse_sort_key("bogus:asc").is_err());
}

#[test]
fn metric_columns_and_aliases() {
    assert_eq!(metric_col("scheduled_task_ratio").unwrap(), "task_ratio");
    assert_eq!(metric_col("task_ratio").unwrap(), "task_ratio");
    assert_eq!(metric_col("scheduler_runtime_ms").unwrap(), "runtime_ms");
    assert_eq!(metric_col("nope").unwrap_err(), "unsupported registry metric 'nope'");
}

#[test]
fn default_order_expression() {
    let keys = default_sort_keys();
    assert_eq!(keys.len(), 4);
    assert_eq!(keys[0].metric, "scheduled_priority_ratio");
    assert_eq!(keys[3].direction.as_str(), "asc");
    assert_eq!(
        sort_expr(&keys).unwrap(),
        "priority_ratio DESC, task_ratio DESC, priority_density DESC, runtime_ms ASC, run_key ASC"
    );
    assert_eq!(sort_expr(&vec![]).unwrap(), "run_key ASC");
}

#[test]
fn registry_path_defaults() {
    assert_eq!(registry_path(None), ".lab/runs.sqlite");
    assert_eq!(registry_path(Some("x.db")), "x.db");
}

#[test]
fn list_sql_numbers_placeholders_in_condition_order() {
    let f = ListFilter {
        dataset: Some("ds1".to_string()),
        algorithm: None,
        metric: Some("utilization".to_string()),
        has_min: true,
        has_max: true,
        sort: vec![],
        limit: None,
    };
    let sql = list_sql(&f).unwrap();
    assert!(sql.starts_with(ROW_SELECT));
    assert!(sql.ends_with(
        "WHERE r.dataset_id = ?1 AND utilization >= ?2 AND utilization <= ?3 ORDER BY priority_ratio DESC, task_ratio DESC, priority_density DESC, runtime_ms ASC, run_key ASC LIMIT 100"
    ));
    let bad = ListFilter { metric: Some("composite_score".to_string()), ..f.clone() };
    assert!(list_sql(&bad).unwrap_err().contains("query-time score"));
    let unbounded = ListFilter { has_min: false, has_max: false, ..bad };
    assert!(list_sql(&unbounded).is_ok());
}

#[test]
fn best_sql_filters_dataset_and_algorithm() {
    let b = BestOpts {
        dataset_id: "ds1".to_string(),
        algorithm: Some("est".to_string()),
        sort: vec![SortKey { metric: "utilization".to_string(), direction: SortDirection::Desc }],
        limit: Some(3),
    };
    let sql = best_sql(&b).unwrap();
    assert!(sql.ends_with(
        "WHERE r.dataset_id = ?1 AND r.algorithm = ?2 ORDER BY utilization DESC, run_key ASC LIMIT 3"
    ));
    let b2 = BestOpts { algorithm: None, limit: None, ..b };
    assert!(best_sql(&b2).unwrap().ends_with("WHERE r.dataset_id = ?1 ORDER BY utilization DESC, run_key ASC LIMIT 10"));
}

#[test]
fn stored_schedules_are_never_overwritten() {
    assert_eq!(schedule_insert_action(None, "s1", "d1").unwrap(), ScheduleInsert::Insert);
    assert_eq!(schedule_insert_action(Some("d1"), "s1", "d1").unwrap(), ScheduleInsert::Keep);
    assert_eq!(
        schedule_insert_action(Some("d0"), "s1", "d1").unwrap_err(),
        "schedule hash collision: s1 already stored for dataset d0 but a run reported dataset d1"
    );
}
