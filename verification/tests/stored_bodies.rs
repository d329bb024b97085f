use lab::artifact::strip_run_fields;
use lab::blocks::{missing_block_field, BlockFieldsFound};
use lab::publish::reply_counts;
use lab::query::{parse_sort_key, SortDirection};
use serde_json::Value;

fn pretty_without_run_fields(body: &str) -> String {
    let mut v: Value = serde_json::from_str(body).unwrap();
    let obj = v.as_object_mut().unwrap();
    obj.remove("schedule_metadata");
    obj.remove("schedule_metrics");
    serde_json::to_string_pretty(&v).unwrap()
}

#[test]
fn stored_body_loses_its_run_fields() {
    let body = r#"{"schedule":[{"task_id":1,"start":62000.1,"end":62000.2}],"schedule_metadata":{"algorithm":"est"},"schedule_metrics":{"utilization":0.5},"blocks":[1,2]}"#;
    let stripped = strip_run_fields(body).unwrap().expect("run fields were present");
    assert_eq!(stripped, pretty_without_run_fields(body));
    let back: Value = serde_json::from_str(&stripped).unwrap();
    assert!(back.get("schedule_metadata").is_none());
    assert!(back.get("schedule_metrics").is_none());
    assert_eq!(back["blocks"], serde_json::from_str::<Value>("[1,2]").unwrap());
}

#[test]
fn stored_body_with_one_run_field_is_stripped() {
    let body = r#"{"schedule":[],"schedule_metrics":{"n":3}}"#;
    let stripped = strip_run_fields(body).unwrap().unwrap();
    assert_eq!(stripped, pretty_without_run_fields(body));
}

#[test]
fn stored_body_without_run_fields_is_left_alone() {
    assert_eq!(strip_run_fields(r#"{"schedule":[]}"#), Ok(None));
    assert_eq!(strip_run_fields("[1,2,3]"), Ok(None));
    assert_eq!(strip_run_fields("42"), Ok(None));
}

#[test]
fn stored_body_that_is_not_json_is_an_error() {
    let r = strip_run_fields("{not json");
    let e = r.unwrap_err();
    let expected = serde_json::from_str::<Value>("{not json").unwrap_err().to_string();
    assert_eq!(e, expected);
}

#[test]
fn upload_reply_counts_are_read_from_summary() {
    let body = r#"{"summary":{"created":2,"deduplicated":1,"failed":0},"items":[]}"#;
    assert_eq!(reply_counts(body), Ok((2, 1, 0)));
    let big = r#"{"summary":{"created":18446744073709551615,"deduplicated":10,"failed":7}}"#;
    assert_eq!(reply_counts(big), Ok((u64::MAX, 10, 7)));
}

#[test]
fn upload_reply_counts_default_to_zero() {
    assert_eq!(reply_counts(r#"{"items":[]}"#), Ok((0, 0, 0)));
    assert_eq!(reply_counts(r#"{"summary":{"created":3}}"#), Ok((3, 0, 0)));
    assert_eq!(reply_counts(r#"{"summary":[1,2]}"#), Ok((0, 0, 0)));
    assert_eq!(reply_counts("[]"), Ok((0, 0, 0)));
    assert_eq!(
        reply_counts(r#"{"summary":{"created":1.5,"deduplicated":-2,"failed":"4"}}"#),
        Ok((0, 0, 0))
    );
}

#[test]
fn upload_reply_that_is_not_json_is_an_error() {
    let e = reply_counts("<html>").unwrap_err();
    let expected = serde_json::from_str::<Value>("<html>").unwrap_err().to_string();
    assert_eq!(e, expected);
}

fn all_found() -> BlockFieldsFound {
    BlockFieldsFound {
        block_id: true,
        target: true,
        coordinate: true,
        ra: true,
        dec: true,
        constraints: true,
        time_constraint: true,
        duration: true,
    }
}

#[test]
fn block_with_every_field_has_nothing_missing() {
    assert_eq!(missing_block_field(all_found()), None);
}

#[test]
fn block_missing_fields_are_reported_first_first() {
    let mut f = all_found();
    f.duration = false;
    assert_eq!(missing_block_field(f), Some("missing requested_duration_sec"));
    f.time_constraint = false;
    assert_eq!(missing_block_field(f), Some("missing time_constraint_"));
    f.constraints = false;
    assert_eq!(missing_block_field(f), Some("missing constraints_"));
    f.dec = false;
    assert_eq!(missing_block_field(f), Some("missing dec_in_deg"));
    f.ra = false;
    assert_eq!(missing_block_field(f), Some("missing ra_in_deg"));
    f.coordinate = false;
    assert_eq!(
        missing_block_field(f),
        Some("missing target coordinate (expected target.position_.coord or target.position_.coordinate)")
    );
    f.target = false;
    assert_eq!(missing_block_field(f), Some("missing target"));
    f.block_id = false;
    assert_eq!(missing_block_field(f), Some("missing scheduling_block_id"));
}

#[test]
fn sort_key_written_from_its_parts_parses_back() {
    for dir in [SortDirection::Asc, SortDirection::Desc] {
        let text = format!("utilization:{}", dir.as_str());
        let k = parse_sort_key(&text).unwrap();
        assert_eq!(k.metric, "utilization");
        assert_eq!(k.direction, dir);
    }
    let k = parse_sort_key(" fragmentation_index :desc").unwrap();
    assert_eq!(k.metric, "fragmentation_index");
    assert_eq!(k.direction, SortDirection::Desc);
}
