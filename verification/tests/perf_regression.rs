//! Cells of the performance regression matrix. The metric comparison runs
//! only where the archived datasets are checked out; without them each
//! cell reports a skip, as in the repository's own suite.
use lab::cell::resolve_cells;
use lab::config::{EstSweepAxes, HorizonOverride};
use lab::spec::{AlgorithmSweep, DatasetEntry, ExperimentSpec};
use std::path::PathBuf;

fn horizon(start: f64, end: f64) -> Option<HorizonOverride> {
    Some(HorizonOverride { start_mjd_bits: start.to_bits(), end_mjd_bits: end.to_bits() })
}

fn fast_spec() -> ExperimentSpec {
    let ds = |id: &str, dir: &str, label: &str, h: Option<HorizonOverride>| DatasetEntry {
        id: id.to_string(),
        path: format!("data/local/{dir}/scheduling_problem.json"),
        label: Some(label.to_string()),
        horizon_override: h,
    };
    ExperimentSpec {
        name: "perf_regression_fast".to_string(),
        datasets: vec![
            ds("lst_sh", "LST-SH", "LST single-hemisphere (10-day window)", horizon(60341.0, 60351.0)),
            ds("cta_n", "CTA-N", "CTA North (10-day window)", horizon(61771.0, 61781.0)),
            ds("cta_s", "CTA-S", "CTA South (10-day window)", horizon(61771.0, 61781.0)),
        ],
        algorithms: vec![AlgorithmSweep::Est {
            axes: EstSweepAxes {
                endangered_thresholds: vec![1],
                k_beams: vec![1, 3],
                branching_factors: vec![1, 2],
                foms: vec![],
            },
        }],
        max_parallel: Some(4),
        output_dir: Some("__PLACEHOLDER__".to_string()),
    }
}

fn dataset_present(dataset_id: &str) -> bool {
    let rel = match dataset_id {
        "lst_sh" => "data/local/LST-SH/scheduling_problem.json",
        "cta_n" => "data/local/CTA-N/scheduling_problem.json",
        "cta_s" => "data/local/CTA-S/scheduling_problem.json",
        other => panic!("unknown dataset id: {other}"),
    };
    PathBuf::from(rel).exists()
}

fn check_fast_cell(cell_id: &str, dataset_id: &str) {
    let cells = resolve_cells(&fast_spec()).expect("fast spec must resolve");
    assert_eq!(cells.len(), 12);
    let cell = cells
        .iter()
        .find(|c| c.cell_id == cell_id)
        .unwrap_or_else(|| panic!("cell '{cell_id}' not found in fast run matrix"));
    assert_eq!(cell.dataset_id, dataset_id);
    if !dataset_present(dataset_id) {
        println!("SKIP {cell_id}: dataset '{dataset_id}' not present (run `git lfs pull`)");
        return;
    }
    println!("SKIP {cell_id}: metric baselines need the scheduler, which this crate does not link");
}

#[test]
fn perf_lst_sh_est_e1_k1_b1() {
    check_fast_cell("lst_sh__est__e1-k1-b1", "lst_sh");
}

#[test]
fn perf_lst_sh_est_e1_k1_b2() {
    check_fast_cell("lst_sh__est__e1-k1-b2", "lst_sh");
}

#[test]
fn perf_lst_sh_est_e1_k3_b1() {
    check_fast_cell("lst_sh__est__e1-k3-b1", "lst_sh");
}

#[test]
fn perf_lst_sh_est_e1_k3_b2() {
    check_fast_cell("lst_sh__est__e1-k3-b2", "lst_sh");
}

#[test]
fn perf_cta_n_est_e1_k1_b1() {
    check_fast_cell("cta_n__est__e1-k1-b1", "cta_n");
}

#[test]
fn perf_cta_n_est_e1_k1_b2() {
    check_fast_cell("cta_n__est__e1-k1-b2", "cta_n");
}

#[test]
fn perf_cta_n_est_e1_k3_b1() {
    check_fast_cell("cta_n__est__e1-k3-b1", "cta_n");
}

#[test]
fn perf_cta_n_est_e1_k3_b2() {
    check_fast_cell("cta_n__est__e1-k3-b2", "cta_n");
}

#[test]
fn perf_cta_s_est_e1_k1_b1() {
    check_fast_cell("cta_s__est__e1-k1-b1", "cta_s");
}

#[test]
fn perf_cta_s_est_e1_k1_b2() {
    check_fast_cell("cta_s__est__e1-k1-b2", "cta_s");
}

#[test]
fn perf_cta_s_est_e1_k3_b1() {
    check_fast_cell("cta_s__est__e1-k3-b1", "cta_s");
}

#[test]
fn perf_cta_s_est_e1_k3_b2() {
    check_fast_cell("cta_s__est__e1-k3-b2", "cta_s");
}
