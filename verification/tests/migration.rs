use lab::cell::MatrixCell;
use lab::config::{HapSurvivorMode, RunConfig};
use lab::migrate::{
    collect_est_axes, collect_hap_axes, legacy_run_to_config, migrated_cells,
    migrated_experiment_name, migrated_spec, LegacyRunEntry, MigrateSummary,
};
use lab::spec::{AlgorithmSweep, DatasetEntry};

fn entry(slug: &str, algorithm: &str) -> LegacyRunEntry {
    LegacyRunEntry {
        slug: slug.to_string(),
        algorithm: algorithm.to_string(),
        endangered_threshold: None,
        k_beams: None,
        branching_factor: None,
        iota_max: None,
        rho: None,
        population_size: None,
        survivor_mode: None,
        survivor_cap: None,
        seed: None,
        schedule_json: format!("schedules/{slug}.json"),
    }
}

fn legacy_runs() -> Vec<LegacyRunEntry> {
    let mut est = entry("e1-k1-b1", "est");
    est.endangered_threshold = Some(1);
    est.k_beams = Some(1);
    est.branching_factor = Some(1);
    let mut hap = entry("hap-i64-r2-p4-elitist4-s0", "hap");
    hap.iota_max = Some(64);
    hap.rho = Some(2);
    hap.population_size = Some(4);
    hap.survivor_mode = Some(HapSurvivorMode::ElitistTopK);
    hap.survivor_cap = Some(4);
    hap.seed = Some(0);
    vec![est, hap]
}

#[test]
fn legacy_entries_become_cells() {
    let cells = migrated_cells("missing", "data/missing.json", None, &legacy_runs()).unwrap();
    assert_eq!(cells.len(), 2);
    assert_eq!(cells[0].cell_id, "missing__est__e1-k1-b1");
    assert_eq!(cells[1].cell_id, "missing__hap__hap-i64-r2-p4-elitist4-s0");
    assert_eq!(cells[1].algorithm, "hap");
    assert_eq!(cells[0].dataset_path, "data/missing.json");
    let summary = MigrateSummary { cells_migrated: cells.len(), run_dir: "out".to_string() };
    assert_eq!(summary.cells_migrated, 2);
}

#[test]
fn absent_parameters_take_defaults_and_unknown_algorithms_fail() {
    let c = legacy_run_to_config(&entry("x", "hap")).unwrap();
    assert_eq!(c.slug(), "hap-i128-r3-p4-elitist4-s0");
    let mut e = entry("y", "est");
    e.k_beams = Some(7);
    assert_eq!(legacy_run_to_config(&e).unwrap().slug(), "e1-k7-b1");
    assert_eq!(
        legacy_run_to_config(&entry("z", "lst")).unwrap_err(),
        "unknown legacy algorithm 'lst' in slug 'z'"
    );
    let mut runs = legacy_runs();
    runs.push(entry("q", "mystery"));
    assert_eq!(
        migrated_cells("d", "d.json", None, &runs).unwrap_err(),
        "unknown legacy algorithm 'mystery' in slug 'q'"
    );
}

fn est_cell(e: u32, k: usize, b: usize) -> MatrixCell {
    let mut r = entry("s", "est");
    r.endangered_threshold = Some(e);
    r.k_beams = Some(k);
    r.branching_factor = Some(b);
    migrated_cells("d", "d.json", None, &vec![r]).unwrap().remove(0)
}

#[test]
fn collected_axes_list_distinct_values_in_order() {
    let cells = vec![est_cell(2, 3, 1), est_cell(1, 3, 2), est_cell(2, 1, 1)];
    let axes = collect_est_axes(&cells).unwrap();
    assert_eq!(axes.endangered_thresholds, vec![1, 2]);
    assert_eq!(axes.k_beams, vec![1, 3]);
    assert_eq!(axes.branching_factors, vec![1, 2]);
    assert!(axes.foms.is_empty());
    assert!(collect_hap_axes(&cells).is_none());

    let mut runs = legacy_runs();
    let mut greedy = entry("g", "hap");
    greedy.survivor_mode = Some(HapSurvivorMode::GreedyOne);
    greedy.seed = Some(7);
    runs.push(greedy);
    let cells = migrated_cells("d", "d.json", None, &runs).unwrap();
    let hap = collect_hap_axes(&cells).unwrap();
    assert_eq!(hap.iota_max_values, vec![64, 128]);
    assert_eq!(hap.survivor_modes, vec![HapSurvivorMode::GreedyOne, HapSurvivorMode::ElitistTopK]);
    assert_eq!(hap.seeds, vec![0, 7]);
    assert!(matches!(cells[2].run_config, RunConfig::Hap(_)));
}

#[test]
fn migrated_spec_names_and_blocks() {
    assert_eq!(migrated_experiment_name(Some("run-legacy")), "migrated-run-legacy");
    assert_eq!(migrated_experiment_name(None), "migrated-legacy");
    let cells = migrated_cells("d", "d.json", None, &legacy_runs()).unwrap();
    let spec = migrated_spec(
        "migrated-run-legacy".to_string(),
        DatasetEntry { id: "d".to_string(), path: "d.json".to_string(), label: None, horizon_override: None },
        collect_est_axes(&cells),
        collect_hap_axes(&cells),
        "old/migrated".to_string(),
    );
    assert_eq!(spec.algorithms.len(), 2);
    assert!(matches!(spec.algorithms[0], AlgorithmSweep::Est { .. }));
    assert!(matches!(spec.algorithms[1], AlgorithmSweep::Hap { .. }));
    assert_eq!(spec.output_dir.as_deref(), Some("old/migrated"));
    assert!(spec.max_parallel.is_none());
}
