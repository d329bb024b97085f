use lab::artifact::reconstruct_artifact;
use lab::registry::RunRow;
use serde_json::Value;

const BODY: &str = r#"{"scheduling_blocks":[{"id":1,"tasks":[{"id":101,"name":"t"}]}],"schedule":[{"task_id":101,"start":62000.1,"end":62000.2}]}"#;

fn metadata(k_beams: u64) -> String {
    format!(
        r#"{{"algorithm":"est","algorithm_config":{{"k_beams":{k_beams}}},"location":{{"name":"site","longitude_deg":1.0,"latitude_deg":2.0,"height_m":3.0}},"period":{{"start_mjd_utc":62000.0,"end_mjd_utc":62001.0}},"dataset_id":"ds1","dataset_label":null}}"#
    )
}

fn row_with(metadata_json: &str, metrics_json: &str, body: &str) -> RunRow {
    RunRow {
        run_key: "a".repeat(64),
        dataset_id: "ds1".to_string(),
        dataset_path: "/d.json".to_string(),
        algorithm: "est".to_string(),
        config_slug: "e1-k1-b1".to_string(),
        identity_json: "{}".to_string(),
        metrics_json: metrics_json.to_string(),
        metadata_json: Some(metadata_json.to_string()),
        schedule_hash: Some("hash".to_string()),
        schedule_json: Some(body.to_string()),
        created_at: "now".to_string(),
        last_seen_at: "now".to_string(),
        source_cell_id: None,
    }
}

fn parse(s: &str) -> Value {
    serde_json::from_str(s).unwrap()
}

#[test]
fn reconstruction_matches_full_schedule_output() {
    let md = metadata(1);
    let metrics = r#"{"scheduler_runtime_ms":42.0,"utilization":0.5}"#;
    let mut full = parse(BODY);
    full.as_object_mut().unwrap().insert("schedule_metadata".to_string(), parse(&md));
    full.as_object_mut().unwrap().insert("schedule_metrics".to_string(), parse(metrics));

    let row = row_with(&md, metrics, BODY);
    let rebuilt = parse(&reconstruct_artifact(&row).unwrap());
    assert_eq!(rebuilt, full);
}

#[test]
fn shared_body_yields_per_run_metadata_and_metrics() {
    let r1 = row_with(&metadata(1), r#"{"scheduler_runtime_ms":10.0}"#, BODY);
    let r2 = row_with(&metadata(2), r#"{"scheduler_runtime_ms":20.0}"#, BODY);

    let a = parse(&reconstruct_artifact(&r1).unwrap());
    let b = parse(&reconstruct_artifact(&r2).unwrap());

    assert_eq!(a["schedule_metadata"]["algorithm_config"]["k_beams"], 1);
    assert_eq!(b["schedule_metadata"]["algorithm_config"]["k_beams"], 2);
    assert_eq!(a["schedule_metrics"]["scheduler_runtime_ms"], 10.0);
    assert_eq!(b["schedule_metrics"]["scheduler_runtime_ms"], 20.0);
}

#[test]
fn embedded_body_metadata_is_overridden() {
    let mut poisoned = parse(BODY);
    poisoned.as_object_mut().unwrap().insert("schedule_metadata".to_string(), parse(&metadata(99)));
    poisoned
        .as_object_mut()
        .unwrap()
        .insert("schedule_metrics".to_string(), parse(r#"{"scheduler_runtime_ms":999.0}"#));
    let body = serde_json::to_string(&poisoned).unwrap();

    let row = row_with(&metadata(7), r#"{"scheduler_runtime_ms":7.0}"#, &body);
    let out = parse(&reconstruct_artifact(&row).unwrap());
    assert_eq!(out["schedule_metadata"]["algorithm_config"]["k_beams"], 7);
    assert_eq!(out["schedule_metrics"]["scheduler_runtime_ms"], 7.0);
}

#[test]
fn missing_metadata_fails_loudly() {
    let mut row = row_with("{}", "{}", r#"{"scheduling_blocks":[]}"#);
    row.metadata_json = None;
    let err = reconstruct_artifact(&row).unwrap_err();
    assert!(err.contains("predates"), "unexpected error: {err}");
}

#[test]
fn artifact_is_the_pretty_body_with_the_run_fields() {
    let row = row_with(r#"{"m":2}"#, r#"{"t":3}"#, r#"{"a":1,"schedule_metrics":{"x":1}}"#);
    assert_eq!(
        reconstruct_artifact(&row).unwrap(),
        "{\n  \"a\": 1,\n  \"schedule_metadata\": {\n    \"m\": 2\n  },\n  \"schedule_metrics\": {\n    \"t\": 3\n  }\n}"
    );
}

#[test]
fn metrics_that_are_not_an_object_are_left_out() {
    let row = row_with(r#"{"m":2}"#, "[1]", r#"{"a":1,"schedule_metrics":{"x":1}}"#);
    let out = parse(&reconstruct_artifact(&row).unwrap());
    assert!(out.get("schedule_metrics").is_none());
    assert_eq!(out["schedule_metadata"]["m"], 2);
}

#[test]
fn reconstruction_errors_come_in_order() {
    let key16 = "a".repeat(16);
    let mut row = row_with("{}", "{}", "{}");
    row.schedule_hash = None;
    assert_eq!(
        reconstruct_artifact(&row).unwrap_err(),
        format!("run '{key16}' has no schedule_hash; registry is inconsistent")
    );

    let mut row = row_with("{}", "{}", "{}");
    row.schedule_hash = Some("0123456789abcdef0123".to_string());
    row.schedule_json = None;
    assert_eq!(
        reconstruct_artifact(&row).unwrap_err(),
        format!("run '{key16}' references missing schedule '0123456789abcdef'; registry is inconsistent")
    );

    let row = row_with("{}", "{}", "[1, 2]");
    assert_eq!(
        reconstruct_artifact(&row).unwrap_err(),
        format!("run '{key16}' stored schedule body is not a JSON object")
    );

    let row = row_with("{}", "{}", "{");
    assert!(reconstruct_artifact(&row)
        .unwrap_err()
        .starts_with(&format!("run '{key16}' has an invalid stored schedule body: ")));

    let row = row_with("{", "{}", "{}");
    assert!(reconstruct_artifact(&row)
        .unwrap_err()
        .starts_with(&format!("run '{key16}' has invalid stored metadata JSON: ")));

    let row = row_with("{}", "nope", "{}");
    assert!(reconstruct_artifact(&row)
        .unwrap_err()
        .starts_with(&format!("run '{key16}' has invalid stored metrics JSON: ")));
}
