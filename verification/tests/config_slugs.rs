use lab::config::{
    EstRunConfig, FomKind, HapRunConfig, HapSurvivorMode, LstRunConfig, MultiCursorLayout,
    MultiCursorRunConfig, RunConfig,
};

#[test]
fn lst_slug_matches_est_format() {
    let run = RunConfig::Lst(LstRunConfig {
        fom: FomKind::SoftConstraint,
        endangered_threshold: 1,
        k_beams: 4,
        branching_factor: 2,
    });
    assert_eq!(run.slug(), "e1-k4-b2");
    assert_eq!(run.algorithm(), "lst");
}

#[test]
fn lst_slug_includes_non_default_fom() {
    let run = RunConfig::Lst(LstRunConfig {
        fom: FomKind::FutureFlexibility,
        endangered_threshold: 1,
        k_beams: 4,
        branching_factor: 2,
    });
    assert_eq!(run.slug(), "e1-k4-b2-future_flexibility");
}

#[test]
fn config_est_slug_encodes_all_configuration_axes() {
    let run = RunConfig::Est(EstRunConfig {
        fom: FomKind::SoftConstraint,
        endangered_threshold: 2,
        k_beams: 5,
        branching_factor: 3,
    });
    assert_eq!(run.slug(), "e2-k5-b3");
}

#[test]
fn multi_cursor_slug_encodes_layout_and_axes() {
    let run = RunConfig::MultiCursor(MultiCursorRunConfig {
        fom: FomKind::SoftConstraint,
        endangered_threshold: 1,
        k_beams: 4,
        branching_factor: 2,
        layout: MultiCursorLayout::EstLstSplit,
    });
    assert_eq!(run.slug(), "est_lst_split-e1-k4-b2");
    assert_eq!(run.algorithm(), "multi_cursor");
}

#[test]
fn multi_cursor_slug_distinguishes_layouts() {
    let split = MultiCursorRunConfig {
        layout: MultiCursorLayout::EstLstSplit,
        ..MultiCursorRunConfig::default()
    };
    let start_mid = MultiCursorRunConfig {
        layout: MultiCursorLayout::StartMidForward,
        ..MultiCursorRunConfig::default()
    };
    assert_ne!(split.slug(), start_mid.slug());
    assert_eq!(start_mid.slug(), "start_mid_forward-e1-k1-b1");
}

#[test]
fn config_hap_slug_encodes_all_configuration_axes() {
    let run = RunConfig::Hap(HapRunConfig {
        iota_max: 64,
        rho: 2,
        population_size: 8,
        survivor_mode: HapSurvivorMode::ParetoFront,
        survivor_cap: 5,
        seed: 42,
    });
    assert_eq!(run.slug(), "hap-i64-r2-p8-pareto5-s42");
}

#[test]
fn config_schedule_file_stem_uses_slug() {
    let run = RunConfig::Est(EstRunConfig {
        fom: FomKind::SoftConstraint,
        endangered_threshold: 2,
        k_beams: 5,
        branching_factor: 3,
    });
    assert_eq!(run.schedule_file_stem(), "e2-k5-b3");
}

#[test]
fn est_slug_with_future_flexibility_carries_suffix() {
    let run = RunConfig::Est(EstRunConfig {
        fom: FomKind::FutureFlexibility,
        endangered_threshold: 1,
        k_beams: 4,
        branching_factor: 2,
    });
    assert_eq!(run.slug(), "e1-k4-b2-future_flexibility");
    assert_eq!(run.algorithm(), "est");
}

#[test]
fn hap_slugs_of_each_survivor_mode() {
    let base = HapRunConfig::default();
    assert_eq!(RunConfig::Hap(base).slug(), "hap-i128-r3-p4-elitist4-s0");
    let greedy = HapRunConfig { survivor_mode: HapSurvivorMode::GreedyOne, ..base };
    assert_eq!(greedy.slug(), "hap-i128-r3-p4-greedy1-4-s0");
}

#[test]
fn default_run_config_is_default_est() {
    let run = RunConfig::default();
    assert_eq!(run.slug(), "e1-k1-b1");
    assert_eq!(run.algorithm(), "est");
    assert_eq!(FomKind::default().as_str(), "soft_constraint");
}

#[test]
fn hap_with_zero_parameter_is_rejected() {
    let bad = HapRunConfig { population_size: 0, ..HapRunConfig::default() };
    let err = RunConfig::Hap(bad).validate().unwrap_err();
    assert!(err.contains("population_size"), "{err}");
    assert!(RunConfig::Hap(HapRunConfig::default()).validate().is_ok());
}

#[test]
fn hap_slugs_tell_every_configuration_apart() {
    let base = HapRunConfig {
        iota_max: 64,
        rho: 2,
        population_size: 8,
        survivor_mode: HapSurvivorMode::ElitistTopK,
        survivor_cap: 5,
        seed: 42,
    };
    let other_cap = HapRunConfig { survivor_cap: 6, ..base };
    assert_ne!(base.slug(), other_cap.slug());
    let other_seed = HapRunConfig { seed: 4, ..base };
    assert_ne!(base.slug(), other_seed.slug());
    let greedy_a = HapRunConfig { survivor_mode: HapSurvivorMode::GreedyOne, survivor_cap: 1, ..base };
    let greedy_b = HapRunConfig { survivor_mode: HapSurvivorMode::GreedyOne, survivor_cap: 9, ..base };
    assert_ne!(greedy_a.slug(), greedy_b.slug());
    assert_eq!(greedy_a.slug(), "hap-i64-r2-p8-greedy1-1-s42");
    let greedy_4 = HapRunConfig { survivor_cap: 4, ..greedy_a };
    let greedy_5 = HapRunConfig { survivor_cap: 5, ..greedy_a };
    assert_ne!(greedy_4.slug(), greedy_5.slug());
}

#[test]
fn beam_slugs_tell_configurations_apart() {
    let a = EstRunConfig { fom: FomKind::SoftConstraint, endangered_threshold: 1, k_beams: 12, branching_factor: 3 };
    let b = EstRunConfig { fom: FomKind::SoftConstraint, endangered_threshold: 11, k_beams: 2, branching_factor: 3 };
    assert_ne!(a.slug(), b.slug());
    let c = EstRunConfig { fom: FomKind::FutureFlexibility, ..a };
    assert_ne!(a.slug(), c.slug());
    let m1 = MultiCursorRunConfig {
        fom: FomKind::SoftConstraint,
        endangered_threshold: 1,
        k_beams: 4,
        branching_factor: 2,
        layout: MultiCursorLayout::EstLstSplit,
    };
    let m2 = MultiCursorRunConfig { layout: MultiCursorLayout::StartMidForward, ..m1 };
    assert_ne!(m1.slug(), m2.slug());
}
