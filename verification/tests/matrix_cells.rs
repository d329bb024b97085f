use lab::cell::resolve_cells;
use lab::config::{EstSweepAxes, FomKind, HapSurvivorMode, HapSweepAxes, HorizonOverride};
use lab::spec::{AlgorithmSweep, DatasetEntry, ExperimentSpec};

fn dataset(id: &str, path: &str) -> DatasetEntry {
    DatasetEntry { id: id.to_string(), path: path.to_string(), label: None, horizon_override: None }
}

fn spec_two_datasets_two_algorithms() -> ExperimentSpec {
    ExperimentSpec {
        name: "x".to_string(),
        datasets: vec![dataset("d1", "d1.json"), dataset("d2", "d2.json")],
        algorithms: vec![
            AlgorithmSweep::Est {
                axes: EstSweepAxes {
                    endangered_thresholds: vec![1, 2],
                    k_beams: vec![1, 2],
                    branching_factors: vec![1],
                    foms: vec![],
                },
            },
            AlgorithmSweep::Hap {
                axes: HapSweepAxes {
                    iota_max_values: vec![64],
                    rho_values: vec![2],
                    population_sizes: vec![4, 8],
                    survivor_modes: vec![HapSurvivorMode::ElitistTopK],
                    survivor_caps: vec![4],
                    seeds: vec![0],
                },
            },
        ],
        max_parallel: None,
        output_dir: Some("out".to_string()),
    }
}

#[test]
fn cartesian_product_size_matches_axes() {
    let cells = resolve_cells(&spec_two_datasets_two_algorithms()).unwrap();
    // 2 datasets × (4 EST + 2 HAP) = 12 cells
    assert_eq!(cells.len(), 12);
}

#[test]
fn empty_axes_fall_back_to_singleton() {
    let mut spec = spec_two_datasets_two_algorithms();
    spec.algorithms = vec![AlgorithmSweep::Est { axes: EstSweepAxes::default() }];
    let cells = resolve_cells(&spec).unwrap();
    // 2 datasets × 1 default est cell
    assert_eq!(cells.len(), 2);
}

#[test]
fn cell_ids_are_deterministic_and_unique() {
    let spec = spec_two_datasets_two_algorithms();
    let cells_a = resolve_cells(&spec).unwrap();
    let cells_b = resolve_cells(&spec).unwrap();
    assert_eq!(
        cells_a.iter().map(|c| &c.cell_id).collect::<Vec<_>>(),
        cells_b.iter().map(|c| &c.cell_id).collect::<Vec<_>>()
    );
    let mut set = std::collections::HashSet::new();
    for c in &cells_a {
        assert!(set.insert(c.cell_id.clone()), "duplicate {}", c.cell_id);
    }
    let first = &cells_a[0];
    assert!(first.cell_id.starts_with(&format!("{}__", first.dataset_id)));
    assert!(first.cell_id.contains("__est__"));
}

#[test]
fn empty_datasets_is_rejected() {
    let mut spec = spec_two_datasets_two_algorithms();
    spec.datasets.clear();
    assert!(resolve_cells(&spec).is_err());
}

#[test]
fn empty_algorithms_is_rejected() {
    let mut spec = spec_two_datasets_two_algorithms();
    spec.algorithms.clear();
    assert!(resolve_cells(&spec).is_err());
}

fn single_lst_spec(id: &str, path: &str, foms: Vec<FomKind>) -> ExperimentSpec {
    ExperimentSpec {
        name: "x".to_string(),
        datasets: vec![dataset(id, path)],
        algorithms: vec![AlgorithmSweep::Lst {
            axes: EstSweepAxes {
                endangered_thresholds: vec![1],
                k_beams: vec![4],
                branching_factors: vec![2],
                foms,
            },
        }],
        max_parallel: None,
        output_dir: Some("out".to_string()),
    }
}

#[test]
fn lst_cells_use_lst_in_cell_id() {
    let spec = single_lst_spec("isdc_n", "data/isdc_n.json", vec![]);
    let cells = resolve_cells(&spec).unwrap();
    assert_eq!(cells.len(), 1);
    assert!(cells[0].cell_id.contains("__lst__"), "cell_id: {}", cells[0].cell_id);
    assert_eq!(cells[0].cell_id, "isdc_n__lst__e1-k4-b2");
    assert_eq!(cells[0].algorithm, "lst");
}

#[test]
fn lst_cells_include_fom_suffix_when_non_default() {
    let spec = single_lst_spec("d1", "d1.json", vec![FomKind::FutureFlexibility]);
    let cells = resolve_cells(&spec).unwrap();
    assert_eq!(cells.len(), 1);
    assert_eq!(cells[0].cell_id, "d1__lst__e1-k4-b2-future_flexibility");
}

#[test]
fn lst_and_est_do_not_collide() {
    let one = || EstSweepAxes {
        endangered_thresholds: vec![1],
        k_beams: vec![1],
        branching_factors: vec![1],
        foms: vec![],
    };
    let spec = ExperimentSpec {
        name: "x".to_string(),
        datasets: vec![dataset("d1", "d1.json")],
        algorithms: vec![AlgorithmSweep::Est { axes: one() }, AlgorithmSweep::Lst { axes: one() }],
        max_parallel: None,
        output_dir: Some("out".to_string()),
    };
    let cells = resolve_cells(&spec).unwrap();
    assert_eq!(cells.len(), 2);
    let ids: Vec<_> = cells.iter().map(|c| c.cell_id.as_str()).collect();
    assert!(ids.contains(&"d1__est__e1-k1-b1"));
    assert!(ids.contains(&"d1__lst__e1-k1-b1"));
}

#[test]
fn invalid_dataset_id_is_rejected() {
    let mut spec = spec_two_datasets_two_algorithms();
    spec.datasets[0].id = "with space".to_string();
    assert!(resolve_cells(&spec).is_err());
}

#[test]
fn resolve_errors_name_the_problem() {
    let mut spec = spec_two_datasets_two_algorithms();
    spec.datasets.clear();
    assert_eq!(
        resolve_cells(&spec).unwrap_err(),
        "experiment spec must declare at least one dataset"
    );
    let mut spec = spec_two_datasets_two_algorithms();
    spec.algorithms.clear();
    assert_eq!(
        resolve_cells(&spec).unwrap_err(),
        "experiment spec must declare at least one algorithm"
    );
}

#[test]
fn duplicate_datasets_collide_on_cell_ids() {
    let mut spec = spec_two_datasets_two_algorithms();
    spec.datasets[1].id = "d1".to_string();
    let err = resolve_cells(&spec).unwrap_err();
    assert!(err.starts_with("duplicate cell_id 'd1__est__e1-k1-b1'"), "{err}");
}

#[test]
fn cells_keep_matrix_order_and_carry_dataset_fields() {
    let mut spec = spec_two_datasets_two_algorithms();
    spec.datasets[1].label = Some("second".to_string());
    spec.datasets[1].horizon_override = Some(HorizonOverride {
        start_mjd_bits: 60341.0f64.to_bits(),
        end_mjd_bits: 60351.0f64.to_bits(),
    });
    let cells = resolve_cells(&spec).unwrap();
    let ids: Vec<&str> = cells.iter().map(|c| c.cell_id.as_str()).collect();
    assert_eq!(
        ids,
        vec![
            "d1__est__e1-k1-b1",
            "d1__est__e1-k2-b1",
            "d1__est__e2-k1-b1",
            "d1__est__e2-k2-b1",
            "d1__hap__hap-i64-r2-p4-elitist4-s0",
            "d1__hap__hap-i64-r2-p8-elitist4-s0",
            "d2__est__e1-k1-b1",
            "d2__est__e1-k2-b1",
            "d2__est__e2-k1-b1",
            "d2__est__e2-k2-b1",
            "d2__hap__hap-i64-r2-p4-elitist4-s0",
            "d2__hap__hap-i64-r2-p8-elitist4-s0",
        ]
    );
    assert_eq!(cells[6].dataset_path, "d2.json");
    assert_eq!(cells[6].dataset_label.as_deref(), Some("second"));
    assert_eq!(
        cells[6].horizon_override.map(|h| f64::from_bits(h.start_mjd_bits)),
        Some(60341.0)
    );
    assert_eq!(cells[4].algorithm, "hap");
    assert_eq!(cells[4].config_slug(), "hap-i64-r2-p4-elitist4-s0");
}

#[test]
fn repeated_axis_values_do_not_repeat_cells() {
    let mut spec = spec_two_datasets_two_algorithms();
    spec.datasets.truncate(1);
    spec.algorithms = vec![AlgorithmSweep::Est {
        axes: EstSweepAxes {
            endangered_thresholds: vec![2, 1, 2],
            k_beams: vec![1, 1],
            branching_factors: vec![],
            foms: vec![],
        },
    }];
    let cells = resolve_cells(&spec).unwrap();
    let ids: Vec<&str> = cells.iter().map(|c| c.cell_id.as_str()).collect();
    assert_eq!(ids, vec!["d1__est__e1-k1-b1", "d1__est__e2-k1-b1"]);
}

#[test]
fn zero_hap_parameter_rejects_the_spec() {
    let mut spec = spec_two_datasets_two_algorithms();
    spec.algorithms = vec![AlgorithmSweep::Hap {
        axes: HapSweepAxes { rho_values: vec![0], ..HapSweepAxes::default() },
    }];
    let err = resolve_cells(&spec).unwrap_err();
    assert!(err.contains("rho"), "{err}");
}
