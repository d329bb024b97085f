use lab::schedule_hash::{canonical_json, canonical_schedule_hash, PlacementMicros};

const MICROS_PER_DAY: f64 = 86_400_000_000.0;

fn micros(mjd: f64) -> i64 {
    (mjd * MICROS_PER_DAY).round() as i64
}

fn placement(task_id: u64, start: f64, end: f64) -> PlacementMicros {
    PlacementMicros { task_id, start: micros(start), end: micros(end) }
}

#[test]
fn canonical_hash_is_stable_across_placement_order() {
    let a = vec![placement(2, 62000.2, 62000.3), placement(1, 62000.1, 62000.2)];
    let b = vec![placement(1, 62000.1, 62000.2), placement(2, 62000.2, 62000.3)];
    assert_eq!(
        canonical_schedule_hash(&a, Some("MST-N")),
        canonical_schedule_hash(&b, Some("MST-N"))
    );
}

#[test]
fn canonical_hash_changes_when_semantics_change() {
    let base = vec![placement(1, 62000.1, 62000.2)];
    let different_task = vec![placement(2, 62000.1, 62000.2)];
    let different_start = vec![placement(1, 62000.100001, 62000.2)];
    let different_end = vec![placement(1, 62000.1, 62000.200001)];

    let base_hash = canonical_schedule_hash(&base, Some("MST-N"));

    assert_ne!(base_hash, canonical_schedule_hash(&different_task, Some("MST-N")));
    assert_ne!(base_hash, canonical_schedule_hash(&base, Some("MST-S")));
    assert_ne!(base_hash, canonical_schedule_hash(&different_start, Some("MST-N")));
    assert_ne!(base_hash, canonical_schedule_hash(&different_end, Some("MST-N")));
}

#[test]
fn canonical_json_sorts_and_omits_missing_resource() {
    let p = vec![
        PlacementMicros { task_id: 2, start: -5, end: 7 },
        PlacementMicros { task_id: 1, start: 10, end: 20 },
        PlacementMicros { task_id: 1, start: 3, end: 4 },
    ];
    assert_eq!(
        canonical_json(&p, None),
        r#"[{"task_id":1,"start":3,"end":4},{"task_id":1,"start":10,"end":20},{"task_id":2,"start":-5,"end":7}]"#
    );
    assert_eq!(
        canonical_json(&p[..1].to_vec(), Some("MST \"N\"")),
        r#"[{"task_id":2,"resource_id":"MST \"N\"","start":-5,"end":7}]"#
    );
    assert_eq!(canonical_json(&vec![], Some("x")), "[]");
    let min = vec![PlacementMicros { task_id: 0, start: i64::MIN, end: i64::MAX }];
    assert_eq!(
        canonical_json(&min, None),
        format!(r#"[{{"task_id":0,"start":{},"end":{}}}]"#, i64::MIN, i64::MAX)
    );
    assert_eq!(canonical_schedule_hash(&p, None).len(), 64);
}

#[test]
fn canonical_json_escapes_the_resource_id_as_json_does() {
    let p = vec![PlacementMicros { task_id: 3, start: -5, end: 7 }];
    assert_eq!(
        canonical_json(&p, Some("a\"b\\c\n\t\u{1}\u{1f}/\u{e9}")),
        "[{\"task_id\":3,\"resource_id\":\"a\\\"b\\\\c\\n\\t\\u0001\\u001f/\u{e9}\",\"start\":-5,\"end\":7}]"
    );
}
