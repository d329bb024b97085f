use lab::output::{dataset_id_from_path, experiment_slug, join_path, run_dir_name, schedule_path};

#[test]
fn slugify_handles_spaces_and_punctuation() {
    assert_eq!(experiment_slug("hello world"), "hello-world");
    assert_eq!(experiment_slug("ctao/paper:matrix"), "ctao-paper-matrix");
    assert_eq!(experiment_slug("-edges-"), "edges");
    assert_eq!(experiment_slug("***"), "experiment");
}

#[test]
fn schedule_paths_live_under_schedules() {
    assert_eq!(schedule_path("out/run-1", "d1__est__e1-k1-b1"), "out/run-1/schedules/d1__est__e1-k1-b1.json");
    assert_eq!(schedule_path("out/run-1/", "c"), "out/run-1/schedules/c.json");
    assert_eq!(join_path("a", "/abs"), "/abs");
}

#[test]
fn dataset_ids_come_from_file_stems() {
    assert_eq!(dataset_id_from_path("data/CTA-N problem.v2.json"), "CTA-N_problem_v2");
    assert_eq!(dataset_id_from_path("data/lst_sh.json"), "lst_sh");
}

#[test]
fn run_dir_candidates_get_numeric_suffixes() {
    assert_eq!(run_dir_name("run-20240101T000000-000000000Z", 0), "run-20240101T000000-000000000Z");
    assert_eq!(run_dir_name("run-x", 3), "run-x-3");
}

fn id_via_std_path(path: &str) -> String {
    let stem = std::path::Path::new(path).file_stem().and_then(|s| s.to_str()).unwrap_or("dataset");
    let out: String = stem
        .chars()
        .map(|c| if c.is_ascii_alphanumeric() || c == '_' || c == '-' { c } else { '_' })
        .collect();
    if out.is_empty() {
        "dataset".to_string()
    } else {
        out
    }
}

#[test]
fn dataset_ids_follow_the_file_stem_of_the_path() {
    let paths = [
        "data/isdc_n.json",
        "data/.hidden",
        "data/.hidden.json",
        "a/b.tar.gz",
        "dir/",
        "dir/.",
        "dir/./",
        "x/..",
        "/",
        "",
        ".",
        "./a.b",
        "name.",
        "a//b//",
        "CTA-S blocks.json",
        "..",
        "a/...",
    ];
    for p in paths {
        assert_eq!(lab::output::dataset_id_from_path(p), id_via_std_path(p), "path {p:?}");
    }
    assert_eq!(lab::output::dataset_id_from_path("data/isdc_n.json"), "isdc_n");
    assert_eq!(lab::output::dataset_id_from_path("x/.."), "dataset");
}

#[test]
fn experiment_slugs_are_valid_and_stable() {
    for name in ["My Sweep #1", "--a--b--", "!!!", "", "x_y-z", "é-é", "__init__"] {
        let s = experiment_slug(name);
        assert!(!s.is_empty());
        assert!(s.chars().all(|c| c.is_ascii_alphanumeric() || c == '_' || c == '-'));
        assert!(!s.starts_with('-') && !s.ends_with('-') && !s.contains("--"));
        assert_eq!(experiment_slug(&s), s);
    }
    assert_eq!(experiment_slug("!!!"), "experiment");
    assert_eq!(experiment_slug("é-é"), "experiment");
    assert_eq!(experiment_slug("--a--b--"), "a-b");
}
