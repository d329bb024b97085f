use lab::cell::resolve_cells;
use lab::config::EstSweepAxes;
use lab::runner::{
    cached_event, cell_action, check_run_flags, datasets_to_prepare, finished_event, pending_cells,
    plan_runs, started_event, summarize, worker_count, CellAction, RegistryLookup, RunOptions,
};
use lab::spec::{AlgorithmSweep, DatasetEntry, ExperimentSpec};
use lab::runner::RegistryLookup::{Absent, Present, Unavailable};
use lab::state::{completed_cells, CellStatus, StateEvent};

fn event(id: &str, status: CellStatus) -> StateEvent {
    StateEvent {
        cell_id: id.to_string(),
        status,
        schedule_path: None,
        metrics_path: None,
        error: None,
        started_at: "t0".to_string(),
        finished_at: None,
    }
}

#[test]
fn completed_uses_latest_event() {
    let events = vec![
        StateEvent {
            cell_id: "x".into(),
            status: CellStatus::Completed,
            schedule_path: None,
            metrics_path: None,
            error: None,
            started_at: "t0".into(),
            finished_at: Some("t1".into()),
        },
        StateEvent {
            cell_id: "x".into(),
            status: CellStatus::Failed,
            schedule_path: None,
            metrics_path: None,
            error: Some("boom".into()),
            started_at: "t2".into(),
            finished_at: Some("t3".into()),
        },
    ];
    let done = completed_cells(&events);
    assert!(!done.contains(&"x".to_string()));
}

#[test]
fn completed_cells_lists_each_completed_cell_once() {
    let events = vec![
        event("a", CellStatus::Started),
        event("a", CellStatus::Completed),
        event("b", CellStatus::Started),
        event("b", CellStatus::Failed),
        event("c", CellStatus::Completed),
        event("a", CellStatus::Completed),
    ];
    let done = completed_cells(&events);
    assert_eq!(done.len(), 2);
    assert!(done.contains(&"a".to_string()));
    assert!(done.contains(&"c".to_string()));
    assert!(!done.contains(&"b".to_string()));
}

#[test]
fn registry_hits_are_skipped_unless_overriding() {
    let lookups = vec![Present, Absent, Unavailable, Present];
    let plan = plan_runs(&lookups, false);
    assert_eq!(plan.to_run, vec![1, 2]);
    assert_eq!(plan.skipped, 2);
    assert_eq!(plan.overridden, 0);
    let plan = plan_runs(&lookups, true);
    assert_eq!(plan.to_run, vec![0, 1, 2, 3]);
    assert_eq!(plan.skipped, 0);
    assert_eq!(plan.overridden, 2);
    assert_eq!(cell_action(Present, false), CellAction::Skip);
    assert_eq!(cell_action(Present, true), CellAction::Rerun);
    assert_eq!(cell_action(Unavailable, false), CellAction::Run);
    assert!(!RunOptions::default().override_existing);
    assert!(RunOptions::default().run_db.is_none());
}

#[test]
fn summary_counts_outcomes() {
    let plan = plan_runs(&vec![RegistryLookup::Present, RegistryLookup::Absent, RegistryLookup::Absent], false);
    let s = summarize(3, &plan, &vec![true, false]);
    assert_eq!(s.total, 3);
    assert_eq!(s.skipped, 1);
    assert_eq!(s.overridden, 0);
    assert_eq!(s.completed, 1);
    assert_eq!(s.failed, 1);
}

#[test]
fn worker_count_follows_configuration_and_cores() {
    assert_eq!(worker_count(Some(0), 8, 10), 1);
    assert_eq!(worker_count(Some(3), 8, 10), 3);
    assert_eq!(worker_count(None, 8, 3), 3);
    assert_eq!(worker_count(None, 2, 10), 2);
    assert_eq!(worker_count(None, 8, 0), 1);
    assert_eq!(worker_count(None, 0, 5), 1);
}

#[test]
fn each_dataset_is_prepared_once() {
    let ids: Vec<String> = ["a", "b", "a", "c", "b"].iter().map(|s| s.to_string()).collect();
    assert_eq!(datasets_to_prepare(&ids), vec![0, 1, 3]);
    assert!(datasets_to_prepare(&vec![]).is_empty());
}

#[test]
fn resume_skips_completed_cells_and_rejects_no_state() {
    let spec = ExperimentSpec {
        name: "x".to_string(),
        datasets: vec![DatasetEntry {
            id: "ds1".to_string(),
            path: "ds1.json".to_string(),
            label: None,
            horizon_override: None,
        }],
        algorithms: vec![AlgorithmSweep::Est {
            axes: EstSweepAxes { k_beams: vec![1, 2], ..EstSweepAxes::default() },
        }],
        max_parallel: None,
        output_dir: None,
    };
    let cells = resolve_cells(&spec).unwrap();
    let done = vec!["ds1__est__e1-k1-b1".to_string()];
    assert_eq!(pending_cells(&cells, &done), vec![1]);
    assert_eq!(pending_cells(&cells, &vec![]), vec![0, 1]);
    assert_eq!(
        check_run_flags(true, true).unwrap_err(),
        "--no-state and --resume are mutually exclusive"
    );
    assert!(check_run_flags(true, false).is_ok());
    assert!(check_run_flags(false, true).is_ok());
}

#[test]
fn cell_events_record_outcomes() {
    let s = started_event("c1", "t0");
    assert_eq!(s.status, CellStatus::Started);
    assert!(s.finished_at.is_none());
    let ok = finished_event("c1", Ok("out/schedules/c1.json".to_string()), "t0", "t1");
    assert_eq!(ok.status, CellStatus::Completed);
    assert_eq!(ok.schedule_path.as_deref(), Some("out/schedules/c1.json"));
    assert_eq!(ok.finished_at.as_deref(), Some("t1"));
    let bad = finished_event("c1", Err("boom".to_string()), "t0", "t1");
    assert_eq!(bad.status, CellStatus::Failed);
    assert_eq!(bad.error.as_deref(), Some("boom"));
    assert!(bad.schedule_path.is_none());
    let hit = cached_event("c1", "t5");
    assert_eq!(hit.status, CellStatus::Completed);
    assert!(hit.schedule_path.is_none());
    assert_eq!(hit.started_at, "t5");
    assert_eq!(completed_cells(&vec![s, ok]), vec!["c1".to_string()]);
}

#[test]
fn resumed_summary_counts_every_cell_once() {
    let plan = lab::runner::plan_runs(
        &vec![RegistryLookup::Present, RegistryLookup::Absent, RegistryLookup::Absent],
        false,
    );
    let s = lab::runner::summarize_resume(5, 3, &plan, &vec![true, false], "runs/exp/run-1".to_string());
    assert_eq!(s.total, 5);
    assert_eq!(s.already_done, 2);
    assert_eq!(s.registry_hits, 1);
    assert_eq!(s.completed, 1);
    assert_eq!(s.failed, 1);
    assert_eq!(s.run_dir, "runs/exp/run-1");
}
