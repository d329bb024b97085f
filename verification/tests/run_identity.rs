use lab::identity::{build_identity, check_dataset_hash, hash_bytes, scheduler_version, sha256_short, RunIdentity, METRICS_VERSION};
use lab::cell::resolve_cells;
use lab::config::EstSweepAxes;
use lab::spec::{AlgorithmSweep, DatasetEntry, ExperimentSpec};

fn make_identity(dataset_hash: &str, config_json: &str) -> RunIdentity {
    RunIdentity {
        dataset_id: "ds1".to_string(),
        dataset_path: "/data/ds1.json".to_string(),
        dataset_hash: dataset_hash.to_string(),
        algorithm: "est".to_string(),
        config_slug: "e1-k1-b1".to_string(),
        config_json: config_json.to_string(),
        horizon_json: None,
        scheduler_version: "v1".to_string(),
        metrics_version: METRICS_VERSION.to_string(),
    }
}

fn same_inputs() {
    let id = make_identity("aabbcc", r#"{"k_beams":1}"#);
    assert_eq!(id.run_key(), id.run_key());
}

fn dataset_hash_changes_key() {
    let id1 = make_identity("hash1", r#"{"k_beams":1}"#);
    let id2 = make_identity("hash2", r#"{"k_beams":1}"#);
    assert_ne!(id1.run_key(), id2.run_key());
}

fn config_changes_key() {
    let id1 = make_identity("hash1", r#"{"k_beams":1}"#);
    let id2 = make_identity("hash1", r#"{"k_beams":2}"#);
    assert_ne!(id1.run_key(), id2.run_key());
}

fn horizon_changes_key() {
    let mut id1 = make_identity("hash1", r#"{"k_beams":1}"#);
    let mut id2 = make_identity("hash1", r#"{"k_beams":1}"#);
    id1.horizon_json = None;
    id2.horizon_json = Some(r#"{"start_mjd":62000,"end_mjd":62001}"#.to_string());
    assert_ne!(id1.run_key(), id2.run_key());
}

fn scheduler_version_changes_key() {
    let mut id1 = make_identity("hash1", r#"{"k_beams":1}"#);
    let mut id2 = make_identity("hash1", r#"{"k_beams":1}"#);
    id1.scheduler_version = "v1".to_string();
    id2.scheduler_version = "v2".to_string();
    assert_ne!(id1.run_key(), id2.run_key());
}

fn metrics_version_changes_key() {
    let mut id1 = make_identity("hash1", r#"{"k_beams":1}"#);
    let mut id2 = make_identity("hash1", r#"{"k_beams":1}"#);
    id1.metrics_version = "schedule_metrics/1".to_string();
    id2.metrics_version = "schedule_metrics/2".to_string();
    assert_ne!(id1.run_key(), id2.run_key());
}

fn path_not_in_key() {
    let mut id1 = make_identity("hash1", r#"{"k_beams":1}"#);
    let mut id2 = make_identity("hash1", r#"{"k_beams":1}"#);
    id1.dataset_path = "/path/a/ds1.json".to_string();
    id2.dataset_path = "/path/b/ds1.json".to_string();
    assert_eq!(id1.run_key(), id2.run_key());
    let key = id1.run_key();
    assert_eq!(key.len(), 64);
    assert!(key.chars().all(|c| c.is_ascii_digit() || ('a'..='f').contains(&c)));
    assert_eq!(id1.run_key(), key);
}

#[test]
fn registry_same_inputs_produce_same_run_key() {
    same_inputs();
}

#[test]
fn mod_same_inputs_produce_same_run_key() {
    same_inputs();
}

#[test]
fn registry_different_dataset_hash_changes_run_key() {
    dataset_hash_changes_key();
}

#[test]
fn mod_different_dataset_hash_changes_run_key() {
    dataset_hash_changes_key();
}

#[test]
fn registry_different_config_changes_run_key() {
    config_changes_key();
}

#[test]
fn mod_different_config_changes_run_key() {
    config_changes_key();
}

#[test]
fn registry_different_horizon_changes_run_key() {
    horizon_changes_key();
}

#[test]
fn mod_different_horizon_changes_run_key() {
    horizon_changes_key();
}

#[test]
fn registry_different_scheduler_version_changes_run_key() {
    scheduler_version_changes_key();
}

#[test]
fn mod_different_scheduler_version_changes_run_key() {
    scheduler_version_changes_key();
}

#[test]
fn registry_different_metrics_version_changes_run_key() {
    metrics_version_changes_key();
}

#[test]
fn mod_different_metrics_version_changes_run_key() {
    metrics_version_changes_key();
}

#[test]
fn registry_dataset_path_is_not_part_of_run_key() {
    path_not_in_key();
}

#[test]
fn mod_dataset_path_is_not_part_of_run_key() {
    path_not_in_key();
}

#[test]
fn run_key_is_sha256_of_canonical_identity_json() {
    let id = make_identity("aabbcc", r#"{"k_beams":1}"#);
    let canonical = [
        r#"{"dataset_id":"ds1","dataset_hash":"aabbcc","algorithm":"est","#,
        r#""config_slug":"e1-k1-b1","config_json":"{\"k_beams\":1}","horizon_json":null,"#,
        r#""scheduler_version":"v1","metrics_version":"schedule_metrics/1"}"#,
    ]
    .join("");
    assert_eq!(id.run_key(), hash_bytes(canonical.as_bytes()));
    assert_eq!(id.run_key().len(), 64);
    assert!(id.run_key().chars().all(|c| c.is_ascii_hexdigit() && !c.is_ascii_uppercase()));
}

#[test]
fn hash_bytes_matches_known_digest() {
    assert_eq!(
        hash_bytes(b"abc"),
        "ba7816bf8f01cfea414140de5dae2223b00361a396177a9cb410ff61f20015ad"
    );
    assert_eq!(sha256_short(b"abc"), "ba7816bf8f01cfea");
    assert_ne!(hash_bytes(b"abd"), hash_bytes(b"abc"));
}

#[test]
fn scheduler_version_prefers_git_sha() {
    assert_eq!(scheduler_version(Some("abc123"), "0.1.0"), "abc123");
    assert_eq!(scheduler_version(Some(""), "0.1.0"), "lab/0.1.0");
    assert_eq!(scheduler_version(None, "0.1.0"), "lab/0.1.0");
}

#[test]
fn identity_of_a_cell_and_hash_check() {
    let spec = ExperimentSpec {
        name: "x".to_string(),
        datasets: vec![DatasetEntry {
            id: "d1".to_string(),
            path: "data/d1.json".to_string(),
            label: None,
            horizon_override: None,
        }],
        algorithms: vec![AlgorithmSweep::Est { axes: EstSweepAxes::default() }],
        max_parallel: None,
        output_dir: None,
    };
    let cells = resolve_cells(&spec).unwrap();
    let id = build_identity(&cells[0], "h1".to_string(), "{}".to_string(), None, "v9");
    assert_eq!(id.dataset_id, "d1");
    assert_eq!(id.dataset_path, "data/d1.json");
    assert_eq!(id.algorithm, "est");
    assert_eq!(id.config_slug, "e1-k1-b1");
    assert_eq!(id.metrics_version, "schedule_metrics/1");
    assert_eq!(id.scheduler_version, "v9");
    assert!(check_dataset_hash(&id, "h1").is_ok());
    assert_eq!(
        check_dataset_hash(&id, "h2").unwrap_err(),
        "dataset hash mismatch for data/d1.json: registry has h1, current file has h2"
    );
}
