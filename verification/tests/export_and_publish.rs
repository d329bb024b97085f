use lab::export::{export_file_names, export_mode, is_full_run_key, ExportMode};
use lab::publish::{
    add_batch, backoff, base_url, batch_url, bearer, chunk_ranges, empty_totals,
    is_self_contained_schedule, pick_setting, publish_failed, trim_base_url, upload_step, workspaces_url,
    UploadReply, UploadStep, SCHEDULE_CHUNK_SIZE,
};
use lab::registry::RunRow;

fn row(key: &str, ds: &str, slug: &str, json: Option<&str>) -> RunRow {
    RunRow {
        run_key: key.to_string(),
        dataset_id: ds.to_string(),
        dataset_path: format!("/data/{ds}.json"),
        algorithm: "est".to_string(),
        config_slug: slug.to_string(),
        identity_json: "{}".to_string(),
        metrics_json: "{}".to_string(),
        metadata_json: None,
        schedule_hash: None,
        schedule_json: json.map(|s| s.to_string()),
        created_at: "2024-05-26T10:00:00Z".to_string(),
        last_seen_at: "2024-05-26T10:00:00Z".to_string(),
        source_cell_id: None,
    }
}

#[test]
fn export_forms_and_their_errors() {
    assert_eq!(export_mode(true, true, false).unwrap(), ExportMode::Single);
    assert_eq!(export_mode(false, false, true).unwrap(), ExportMode::Batch);
    assert_eq!(export_mode(true, false, true).unwrap_err(), "--run requires --out for single-run export");
    assert_eq!(export_mode(false, true, false).unwrap_err(), "--out requires --run for single-run export");
    assert_eq!(export_mode(true, true, true).unwrap_err(), "--out and --out-dir are mutually exclusive");
    assert_eq!(
        export_mode(false, false, false).unwrap_err(),
        "registry export requires either --run + --out (single) or --out-dir (filtered)"
    );
    assert!(is_full_run_key(&"a".repeat(64)));
    assert!(!is_full_run_key("abc"));
}

#[test]
fn export_names_disambiguate_repeated_stems() {
    let rows = vec![
        row("1111111122222222", "ds1", "e1-k1-b1", Some("{}")),
        row("33333333", "ds1", "e1-k1-b1", Some("{}")),
        row("444", "ds2", "e1-k1-b1", None),
        row("5555", "ds2", "e1-k1-b1", Some("{}")),
    ];
    let names = export_file_names(&rows);
    assert_eq!(
        names,
        vec![
            Some("ds1__est__e1-k1-b1.json".to_string()),
            Some("ds1__est__e1-k1-b1__33333333.json".to_string()),
            None,
            Some("ds2__est__e1-k1-b1.json".to_string()),
        ]
    );
}

#[test]
fn export_name_prefix_is_cut_after_eight_bytes() {
    let rows = vec![
        row("ab", "ds", "e1-k1-b1", Some("{}")),
        row("\u{e9}\u{e9}\u{e9}\u{e9}\u{e9}", "ds", "e1-k1-b1", Some("{}")),
        row("abc", "ds", "e1-k1-b1", Some("{}")),
    ];
    let names = export_file_names(&rows);
    assert_eq!(names[1], Some("ds__est__e1-k1-b1__\u{e9}\u{e9}\u{e9}\u{e9}.json".to_string()));
    assert_eq!(names[2], Some("ds__est__e1-k1-b1__abc.json".to_string()));
}

#[test]
fn uploads_retry_server_errors_with_backoff() {
    assert_eq!(backoff(1), 250);
    assert_eq!(backoff(2), 500);
    assert_eq!(backoff(5), 4000);
    assert_eq!(backoff(9), 4000);
    assert_eq!(upload_step(UploadReply::Status { code: 503 }, 0, 3), UploadStep::Retry { wait_ms: 250, attempt: 1 });
    assert_eq!(upload_step(UploadReply::Status { code: 503 }, 3, 3), UploadStep::GiveUp);
    assert_eq!(upload_step(UploadReply::Status { code: 404 }, 0, 3), UploadStep::GiveUp);
    assert_eq!(upload_step(UploadReply::Transport, 1, 3), UploadStep::Retry { wait_ms: 500, attempt: 2 });
    assert_eq!(
        upload_step(UploadReply::Accepted { created: 2, deduplicated: 1, failed: 0 }, 2, 3),
        UploadStep::Done { created: 2, deduplicated: 1, failed: 0 }
    );
}

#[test]
fn uploads_are_batched_and_totalled() {
    assert_eq!(SCHEDULE_CHUNK_SIZE, 25);
    assert_eq!(chunk_ranges(60, 25), vec![(0, 25), (25, 50), (50, 60)]);
    assert!(chunk_ranges(0, 25).is_empty());
    let t = add_batch(empty_totals(), Some((20, 3, 2)), 25);
    let t = add_batch(t, None, 10);
    assert_eq!((t.created, t.deduplicated, t.failed), (20, 3, 12));
    assert!(publish_failed(t));
    assert!(!publish_failed(empty_totals()));
}

#[test]
fn urls_and_schedule_detection() {
    assert_eq!(trim_base_url("http://h:8080///"), "http://h:8080");
    assert_eq!(base_url(None, None, None), "http://localhost:8080");
    assert_eq!(base_url(None, Some("https://x/"), Some("https://old/")), "https://x");
    assert_eq!(base_url(None, None, Some("https://old/")), "https://old");
    assert_eq!(base_url(Some("https://a/"), Some("https://x/"), None), "https://a");
    assert_eq!(pick_setting(None, None, Some("t0")), Some("t0".to_string()));
    assert_eq!(pick_setting(None, Some("t1"), Some("t0")), Some("t1".to_string()));
    assert_eq!(pick_setting(Some("t2"), Some("t1"), Some("t0")), Some("t2".to_string()));
    assert_eq!(pick_setting(None, None, None), None);
    assert_eq!(workspaces_url("https://a"), "https://a/v1/workspaces");
    assert_eq!(batch_url("https://a", "ws"), "https://a/v1/workspaces/ws/schedules/batch");
    assert_eq!(bearer("tok"), "Bearer tok");
    assert!(is_self_contained_schedule(true, false, true));
    assert!(!is_self_contained_schedule(false, true, true));
    assert!(!is_self_contained_schedule(true, false, false));
}
