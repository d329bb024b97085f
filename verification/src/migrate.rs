//! Migration of run directories of the former single-sweep layout.
//!
//! A former run directory holds a manifest with one input dataset and a
//! list of runs, each with its algorithm, its parameters (absent ones take
//! the defaults) and the file of its schedule. Migration rebuilds the
//! matrix cells of those runs and the sweep axes that span them; reading the
//! manifest and copying files is left to the caller.
use vstd::prelude::*;
use vstd::string::*;

use std::collections::BTreeSet;

use crate::axis_sets::{insert_u32, insert_u64, insert_usize, sorted_u32, sorted_u64, sorted_usize};
use crate::cell::MatrixCell;
use crate::config::{
    EstRunConfig, EstSweepAxes, FomKind, HapRunConfig, HapSurvivorMode, HapSweepAxes,
    HorizonOverride, RunConfig,
};
use crate::runner::lemma_push_contains;
use crate::spec::{AlgorithmSweep, DatasetEntry, ExperimentSpec};
use crate::text::{owned, push_str, str_eq};

verus! {

/// One run of a former manifest.
#[derive(Debug, Clone)]
pub struct LegacyRunEntry {
    pub slug: String,
    pub algorithm: String,
    pub endangered_threshold: Option<u32>,
    pub k_beams: Option<usize>,
    pub branching_factor: Option<usize>,
    pub iota_max: Option<usize>,
    pub rho: Option<usize>,
    pub population_size: Option<usize>,
    pub survivor_mode: Option<HapSurvivorMode>,
    pub survivor_cap: Option<usize>,
    pub seed: Option<u64>,
    /// Schedule file, relative to the former run directory.
    pub schedule_json: String,
}

/// Result of a migration.
#[derive(Debug, Clone)]
pub struct MigrateSummary {
    /// Number of cells migrated.
    pub cells_migrated: usize,
    /// The new run directory.
    pub run_dir: String,
}

pub open spec fn or_else<T>(o: Option<T>, d: T) -> T {
    match o {
        Some(x) => x,
        None => d,
    }
}

/// The run configuration of a former run: parameters that are absent take
/// the defaults of the algorithm; an algorithm other than `est` and `hap` is
/// an error naming it and the run's slug.
pub open spec fn spec_legacy_config(run: LegacyRunEntry) -> Result<RunConfig, Seq<char>> {
    if run.algorithm@ == "est"@ {
        Ok(
            RunConfig::Est(
                EstRunConfig {
                    fom: FomKind::SoftConstraint,
                    endangered_threshold: or_else(run.endangered_threshold, 1u32),
                    k_beams: or_else(run.k_beams, 1usize),
                    branching_factor: or_else(run.branching_factor, 1usize),
                },
            ),
        )
    } else if run.algorithm@ == "hap"@ {
        Ok(
            RunConfig::Hap(
                HapRunConfig {
                    iota_max: or_else(run.iota_max, 128usize),
                    rho: or_else(run.rho, 3usize),
                    population_size: or_else(run.population_size, 4usize),
                    survivor_mode: or_else(run.survivor_mode, HapSurvivorMode::ElitistTopK),
                    survivor_cap: or_else(run.survivor_cap, 4usize),
                    seed: or_else(run.seed, 0u64),
                },
            ),
        )
    } else {
        Err("unknown legacy algorithm '"@ + run.algorithm@ + "' in slug '"@ + run.slug@ + "'"@)
    }
}

/// Rebuilds the run configuration of a former run.
pub fn legacy_run_to_config(run: &LegacyRunEntry) -> (r: Result<RunConfig, String>)
    ensures
        match spec_legacy_config(*run) {
            Ok(c) => r == Ok::<RunConfig, String>(c),
            Err(e) => r is Err && r->Err_0@ == e,
        },
{
    if str_eq(run.algorithm.as_str(), "est") {
        let def = EstRunConfig::default();
        Ok(
            RunConfig::Est(
                EstRunConfig {
                    fom: def.fom,
                    endangered_threshold: match run.endangered_threshold {
                        Some(x) => x,
                        None => def.endangered_threshold,
                    },
                    k_beams: match run.k_beams {
                        Some(x) => x,
                        None => def.k_beams,
                    },
                    branching_factor: match run.branching_factor {
                        Some(x) => x,
                        None => def.branching_factor,
                    },
                },
            ),
        )
    } else if str_eq(run.algorithm.as_str(), "hap") {
        let def = HapRunConfig::default();
        Ok(
            RunConfig::Hap(
                HapRunConfig {
                    iota_max: match run.iota_max {
                        Some(x) => x,
                        None => def.iota_max,
                    },
                    rho: match run.rho {
                        Some(x) => x,
                        None => def.rho,
                    },
                    population_size: match run.population_size {
                        Some(x) => x,
                        None => def.population_size,
                    },
                    survivor_mode: match run.survivor_mode {
                        Some(x) => x,
                        None => def.survivor_mode,
                    },
                    survivor_cap: match run.survivor_cap {
                        Some(x) => x,
                        None => def.survivor_cap,
                    },
                    seed: match run.seed {
                        Some(x) => x,
                        None => def.seed,
                    },
                },
            ),
        )
    } else {
        let mut m = owned("unknown legacy algorithm '");
        push_str(&mut m, run.algorithm.as_str());
        push_str(&mut m, "' in slug '");
        push_str(&mut m, run.slug.as_str());
        push_str(&mut m, "'");
        Err(m)
    }
}

/// Index of the first run whose configuration cannot be rebuilt.
pub open spec fn first_bad_run(runs: Seq<LegacyRunEntry>, n: nat) -> Option<int>
    decreases n,
{
    if n == 0 {
        None
    } else {
        match first_bad_run(runs, (n - 1) as nat) {
            Some(k) => Some(k),
            None => if spec_legacy_config(runs[n - 1]) is Err {
                Some(n - 1)
            } else {
                None
            },
        }
    }
}

/// The migrated cell of a former run: id `<dataset>__<algorithm>__<slug>`.
pub open spec fn migrated_cell_ok(
    c: MatrixCell,
    run: LegacyRunEntry,
    dataset_id: Seq<char>,
    dataset_path: Seq<char>,
    horizon: Option<HorizonOverride>,
) -> bool {
    &&& spec_legacy_config(run) is Ok
    &&& c.run_config == spec_legacy_config(run)->Ok_0
    &&& c.cell_id@ == dataset_id + "__"@ + run.algorithm@ + "__"@ + c.run_config.spec_slug()
    &&& c.dataset_id@ == dataset_id
    &&& c.dataset_path@ == dataset_path
    &&& c.dataset_label is None
    &&& c.horizon_override == horizon
    &&& c.algorithm@ == run.algorithm@
}

/// The matrix cells of the runs of a former manifest, in manifest order;
/// the first run with an unknown algorithm makes it an error.
pub fn migrated_cells(
    dataset_id: &str,
    dataset_path: &str,
    horizon: Option<HorizonOverride>,
    runs: &Vec<LegacyRunEntry>,
) -> (r: Result<Vec<MatrixCell>, String>)
    ensures
        match first_bad_run(runs@, runs@.len()) {
            Some(k) => r is Err && r->Err_0@ == spec_legacy_config(runs@[k])->Err_0,
            None => r is Ok && r->Ok_0@.len() == runs@.len() && forall|i: int|
                0 <= i < runs@.len() ==> migrated_cell_ok(
                    #[trigger] r->Ok_0@[i],
                    runs@[i],
                    dataset_id@,
                    dataset_path@,
                    horizon,
                ),
        },
{
    let mut cells: Vec<MatrixCell> = Vec::new();
    let mut i: usize = 0;
    while i < runs.len()
        invariant
            i <= runs.len(),
            first_bad_run(runs@, i as nat) is None,
            cells@.len() == i,
            forall|k: int|
                0 <= k < i ==> migrated_cell_ok(
                    #[trigger] cells@[k],
                    runs@[k],
                    dataset_id@,
                    dataset_path@,
                    horizon,
                ),
        decreases runs.len() - i,
    {
        let run = &runs[i];
        let config = match legacy_run_to_config(run) {
            Ok(c) => c,
            Err(e) => {
                proof {
                    lemma_first_bad_stays(runs@, (i + 1) as nat, runs@.len());
                }
                return Err(e);
            },
        };
        let mut cell_id = owned(dataset_id);
        push_str(&mut cell_id, "__");
        push_str(&mut cell_id, run.algorithm.as_str());
        push_str(&mut cell_id, "__");
        let slug = config.slug();
        push_str(&mut cell_id, slug.as_str());
        cells.push(
            MatrixCell {
                cell_id,
                dataset_id: owned(dataset_id),
                dataset_path: owned(dataset_path),
                dataset_label: None,
                horizon_override: horizon,
                algorithm: run.algorithm.clone(),
                run_config: config,
            },
        );
        i = i + 1;
    }
    Ok(cells)
}

proof fn lemma_first_bad_stays(runs: Seq<LegacyRunEntry>, n: nat, m: nat)
    requires
        n <= m <= runs.len(),
        first_bad_run(runs, n) is Some,
    ensures
        first_bad_run(runs, m) == first_bad_run(runs, n),
    decreases m - n,
{
    if m > n {
        lemma_first_bad_stays(runs, n, (m - 1) as nat);
    }
}

/// A value that can stand on a sweep axis: axes list their values once
/// each, in increasing order of rank.
pub trait AxisValue: Copy + Sized {
    spec fn rank(self) -> int;

    fn precedes(&self, other: &Self) -> (r: bool)
        ensures
            r == (self.rank() < other.rank()),
    ;

    proof fn lemma_rank_injective(a: Self, b: Self)
        ensures
            a.rank() == b.rank() ==> a == b,
    ;
}

impl AxisValue for u32 {
    open spec fn rank(self) -> int {
        self as int
    }

    fn precedes(&self, other: &Self) -> (r: bool) {
        *self < *other
    }

    proof fn lemma_rank_injective(a: Self, b: Self) {
    }
}

impl AxisValue for usize {
    open spec fn rank(self) -> int {
        self as int
    }

    fn precedes(&self, other: &Self) -> (r: bool) {
        *self < *other
    }

    proof fn lemma_rank_injective(a: Self, b: Self) {
    }
}

impl AxisValue for u64 {
    open spec fn rank(self) -> int {
        self as int
    }

    fn precedes(&self, other: &Self) -> (r: bool) {
        *self < *other
    }

    proof fn lemma_rank_injective(a: Self, b: Self) {
    }
}

impl AxisValue for HapSurvivorMode {
    /// Declaration order: greedy, elitist, Pareto.
    open spec fn rank(self) -> int {
        match self {
            HapSurvivorMode::GreedyOne => 0,
            HapSurvivorMode::ElitistTopK => 1,
            HapSurvivorMode::ParetoFront => 2,
        }
    }

    fn precedes(&self, other: &Self) -> (r: bool) {
        let a: u8 = match self {
            HapSurvivorMode::GreedyOne => 0,
            HapSurvivorMode::ElitistTopK => 1,
            HapSurvivorMode::ParetoFront => 2,
        };
        let b: u8 = match other {
            HapSurvivorMode::GreedyOne => 0,
            HapSurvivorMode::ElitistTopK => 1,
            HapSurvivorMode::ParetoFront => 2,
        };
        a < b
    }

    proof fn lemma_rank_injective(a: Self, b: Self) {
    }
}

pub open spec fn strictly_increasing<T: AxisValue>(v: Seq<T>) -> bool {
    forall|i: int, j: int| 0 <= i < j < v.len() ==> #[trigger] v[i].rank() < #[trigger] v[j].rank()
}

/// Adds `x` to an axis, keeping it strictly increasing; nothing changes when
/// `x` is already there.
fn insert_axis_value<T: AxisValue>(v: &mut Vec<T>, x: T)
    requires
        strictly_increasing(old(v)@),
    ensures
        strictly_increasing(final(v)@),
        forall|y: T| #[trigger] final(v)@.contains(y) <==> (old(v)@.contains(y) || y == x),
{
    let mut j: usize = 0;
    while j < v.len() && v[j].precedes(&x)
        invariant
            j <= v.len(),
            v@ == old(v)@,
            strictly_increasing(v@),
            forall|k: int| 0 <= k < j ==> (#[trigger] v@[k]).rank() < x.rank(),
        decreases v.len() - j,
    {
        j = j + 1;
    }
    if j < v.len() && !x.precedes(&v[j]) {
        proof {
            T::lemma_rank_injective(x, v@[j as int]);
            assert forall|y: T| v@.contains(y) <==> (old(v)@.contains(y) || y == x) by {
                if y == x {
                    assert(v@[j as int] == x);
                }
            }
        }
        return;
    }
    let ghost old_v = v@;
    v.insert(j, x);
    proof {
        assert(v@ == old_v.insert(j as int, x));
        assert forall|a: int, b: int| 0 <= a < b < v@.len() implies #[trigger] v@[a].rank()
            < #[trigger] v@[b].rank() by {
            if b < j {
                assert(old_v[a].rank() < old_v[b].rank());
            } else if b == j {
                assert(old_v[a].rank() < x.rank());
            } else if a < j {
                assert(old_v[a].rank() < x.rank());
                if j as int != b - 1 {
                    assert(old_v[j as int].rank() < old_v[b - 1].rank());
                }
            } else if a == j {
                if j as int != b - 1 {
                    assert(old_v[j as int].rank() < old_v[b - 1].rank());
                }
            } else {
                assert(old_v[a - 1].rank() < old_v[b - 1].rank());
            }
        }
        assert forall|y: T| #[trigger] v@.contains(y) <==> (old_v.contains(y) || y == x) by {
            if v@.contains(y) {
                let k = choose|k: int| 0 <= k < v@.len() && v@[k] == y;
                if k < j {
                    assert(old_v[k] == y);
                } else if k > j {
                    assert(old_v[k - 1] == y);
                }
            }
            if old_v.contains(y) {
                let k = choose|k: int| 0 <= k < old_v.len() && old_v[k] == y;
                if k < j {
                    assert(v@[k] == y);
                } else {
                    assert(v@[k + 1] == y);
                }
            }
            if y == x {
                assert(v@[j as int] == x);
            }
        }
    }
}

/// The axis `v` lists exactly the values satisfying `has`, once each, in
/// increasing order.
pub open spec fn axis_lists<T: AxisValue>(v: Seq<T>, has: spec_fn(T) -> bool) -> bool {
    &&& strictly_increasing(v)
    &&& forall|x: T| #[trigger] v.contains(x) <==> has(x)
}

pub open spec fn est_config_of(c: MatrixCell) -> Option<EstRunConfig> {
    match c.run_config {
        RunConfig::Est(e) => Some(e),
        _ => None,
    }
}

pub open spec fn hap_config_of(c: MatrixCell) -> Option<HapRunConfig> {
    match c.run_config {
        RunConfig::Hap(h) => Some(h),
        _ => None,
    }
}

/// Some of the first `n` cells run EST with a configuration satisfying `p`.
pub open spec fn some_est(cells: Seq<MatrixCell>, n: int, p: spec_fn(EstRunConfig) -> bool) -> bool {
    exists|k: int| 0 <= k < n && #[trigger] est_config_of(cells[k]) is Some && p(est_config_of(cells[k])->Some_0)
}

/// Some of the first `n` cells run HAP with a configuration satisfying `p`.
pub open spec fn some_hap(cells: Seq<MatrixCell>, n: int, p: spec_fn(HapRunConfig) -> bool) -> bool {
    exists|k: int| 0 <= k < n && #[trigger] hap_config_of(cells[k]) is Some && p(hap_config_of(cells[k])->Some_0)
}

/// EST axes spanning the EST cells: each axis lists the distinct values of
/// its parameter among those cells, in increasing order; the figure of merit
/// axis is left empty (the default). `None` when no cell runs EST.
pub open spec fn est_axes_span(cells: Seq<MatrixCell>, r: Option<EstSweepAxes>) -> bool {
    let n = cells.len() as int;
    match r {
        None => !some_est(cells, n, |c: EstRunConfig| true),
        Some(a) => {
            &&& some_est(cells, n, |c: EstRunConfig| true)
            &&& axis_lists(
                a.endangered_thresholds@,
                |x: u32| some_est(cells, n, |c: EstRunConfig| c.endangered_threshold == x),
            )
            &&& axis_lists(a.k_beams@, |x: usize| some_est(cells, n, |c: EstRunConfig| c.k_beams == x))
            &&& axis_lists(
                a.branching_factors@,
                |x: usize| some_est(cells, n, |c: EstRunConfig| c.branching_factor == x),
            )
            &&& a.foms@.len() == 0
        },
    }
}

/// The EST sweep axes that span the EST cells of a migrated matrix.
pub fn collect_est_axes(cells: &Vec<MatrixCell>) -> (r: Option<EstSweepAxes>)
    ensures
        est_axes_span(cells@, r),
{
    let mut e: BTreeSet<u32> = BTreeSet::new();
    let mut k: BTreeSet<usize> = BTreeSet::new();
    let mut b: BTreeSet<usize> = BTreeSet::new();
    let mut any = false;
    let mut i: usize = 0;
    while i < cells.len()
        invariant
            i <= cells.len(),
            any == some_est(cells@, i as int, |c: EstRunConfig| true),
            forall|x: u32| #[trigger]
                e@.contains(x) <==> some_est(
                    cells@,
                    i as int,
                    |c: EstRunConfig| c.endangered_threshold == x,
                ),
            forall|x: usize| #[trigger]
                k@.contains(x) <==> some_est(cells@, i as int, |c: EstRunConfig| c.k_beams == x),
            forall|x: usize| #[trigger]
                b@.contains(x) <==> some_est(
                    cells@,
                    i as int,
                    |c: EstRunConfig| c.branching_factor == x,
                ),
        decreases cells.len() - i,
    {
        let ghost n = i as int;
        match cells[i].run_config {
            RunConfig::Est(cfg) => {
                proof {
                    assert(est_config_of(cells@[n]) == Some(cfg));
                }
                any = true;
                insert_u32(&mut e, cfg.endangered_threshold);
                insert_usize(&mut k, cfg.k_beams);
                insert_usize(&mut b, cfg.branching_factor);
            },
            _ => {
                proof {
                    assert(est_config_of(cells@[n]) is None);
                }
            },
        }
        proof {
            lemma_some_est_step(cells@, n, |c: EstRunConfig| true);
            assert forall|x: u32| #[trigger] e@.contains(x) <==> some_est(
                cells@,
                n + 1,
                |c: EstRunConfig| c.endangered_threshold == x,
            ) by {
                lemma_some_est_step(cells@, n, |c: EstRunConfig| c.endangered_threshold == x);
            }
            assert forall|x: usize| #[trigger] k@.contains(x) <==> some_est(
                cells@,
                n + 1,
                |c: EstRunConfig| c.k_beams == x,
            ) by {
                lemma_some_est_step(cells@, n, |c: EstRunConfig| c.k_beams == x);
            }
            assert forall|x: usize| #[trigger] b@.contains(x) <==> some_est(
                cells@,
                n + 1,
                |c: EstRunConfig| c.branching_factor == x,
            ) by {
                lemma_some_est_step(cells@, n, |c: EstRunConfig| c.branching_factor == x);
            }
        }
        i = i + 1;
    }
    if !any {
        return None;
    }
    Some(
        EstSweepAxes {
            endangered_thresholds: sorted_u32(&e),
            k_beams: sorted_usize(&k),
            branching_factors: sorted_usize(&b),
            foms: Vec::new(),
        },
    )
}

proof fn lemma_some_est_step(cells: Seq<MatrixCell>, n: int, p: spec_fn(EstRunConfig) -> bool)
    requires
        0 <= n < cells.len(),
    ensures
        some_est(cells, n + 1, p) <==> (some_est(cells, n, p) || (est_config_of(cells[n]) is Some
            && p(est_config_of(cells[n])->Some_0))),
{
    if some_est(cells, n + 1, p) {
        let k = choose|k: int|
            0 <= k < n + 1 && #[trigger] est_config_of(cells[k]) is Some && p(
                est_config_of(cells[k])->Some_0,
            );
        if k < n {
            assert(some_est(cells, n, p));
        }
    }
}

proof fn lemma_some_hap_step(cells: Seq<MatrixCell>, n: int, p: spec_fn(HapRunConfig) -> bool)
    requires
        0 <= n < cells.len(),
    ensures
        some_hap(cells, n + 1, p) <==> (some_hap(cells, n, p) || (hap_config_of(cells[n]) is Some
            && p(hap_config_of(cells[n])->Some_0))),
{
    if some_hap(cells, n + 1, p) {
        let k = choose|k: int|
            0 <= k < n + 1 && #[trigger] hap_config_of(cells[k]) is Some && p(
                hap_config_of(cells[k])->Some_0,
            );
        if k < n {
            assert(some_hap(cells, n, p));
        }
    }
}

/// HAP axes spanning the HAP cells, as for [`est_axes_span`].
pub open spec fn hap_axes_span(cells: Seq<MatrixCell>, r: Option<HapSweepAxes>) -> bool {
    let n = cells.len() as int;
    match r {
        None => !some_hap(cells, n, |c: HapRunConfig| true),
        Some(a) => {
            &&& some_hap(cells, n, |c: HapRunConfig| true)
            &&& axis_lists(a.iota_max_values@, |x: usize| some_hap(cells, n, |c: HapRunConfig| c.iota_max == x))
            &&& axis_lists(a.rho_values@, |x: usize| some_hap(cells, n, |c: HapRunConfig| c.rho == x))
            &&& axis_lists(
                a.population_sizes@,
                |x: usize| some_hap(cells, n, |c: HapRunConfig| c.population_size == x),
            )
            &&& axis_lists(
                a.survivor_modes@,
                |x: HapSurvivorMode| some_hap(cells, n, |c: HapRunConfig| c.survivor_mode == x),
            )
            &&& axis_lists(
                a.survivor_caps@,
                |x: usize| some_hap(cells, n, |c: HapRunConfig| c.survivor_cap == x),
            )
            &&& axis_lists(a.seeds@, |x: u64| some_hap(cells, n, |c: HapRunConfig| c.seed == x))
        },
    }
}

/// The HAP sweep axes that span the HAP cells of a migrated matrix.
pub fn collect_hap_axes(cells: &Vec<MatrixCell>) -> (r: Option<HapSweepAxes>)
    ensures
        hap_axes_span(cells@, r),
{
    let mut iotas: BTreeSet<usize> = BTreeSet::new();
    let mut rhos: BTreeSet<usize> = BTreeSet::new();
    let mut pops: BTreeSet<usize> = BTreeSet::new();
    let mut modes: Vec<HapSurvivorMode> = Vec::new();
    let mut caps: BTreeSet<usize> = BTreeSet::new();
    let mut seeds: BTreeSet<u64> = BTreeSet::new();
    let mut any = false;
    let mut i: usize = 0;
    while i < cells.len()
        invariant
            i <= cells.len(),
            any == some_hap(cells@, i as int, |c: HapRunConfig| true),
            forall|x: usize| #[trigger]
                iotas@.contains(x) <==> some_hap(cells@, i as int, |c: HapRunConfig| c.iota_max == x),
            forall|x: usize| #[trigger]
                rhos@.contains(x) <==> some_hap(cells@, i as int, |c: HapRunConfig| c.rho == x),
            forall|x: usize| #[trigger]
                pops@.contains(x) <==> some_hap(
                    cells@,
                    i as int,
                    |c: HapRunConfig| c.population_size == x,
                ),
            axis_lists(
                modes@,
                |x: HapSurvivorMode| some_hap(cells@, i as int, |c: HapRunConfig| c.survivor_mode == x),
            ),
            forall|x: usize| #[trigger]
                caps@.contains(x) <==> some_hap(
                    cells@,
                    i as int,
                    |c: HapRunConfig| c.survivor_cap == x,
                ),
            forall|x: u64| #[trigger]
                seeds@.contains(x) <==> some_hap(cells@, i as int, |c: HapRunConfig| c.seed == x),
        decreases cells.len() - i,
    {
        let ghost n = i as int;
        match cells[i].run_config {
            RunConfig::Hap(cfg) => {
                proof {
                    assert(hap_config_of(cells@[n]) == Some(cfg));
                }
                any = true;
                insert_usize(&mut iotas, cfg.iota_max);
                insert_usize(&mut rhos, cfg.rho);
                insert_usize(&mut pops, cfg.population_size);
                insert_axis_value(&mut modes, cfg.survivor_mode);
                insert_usize(&mut caps, cfg.survivor_cap);
                insert_u64(&mut seeds, cfg.seed);
            },
            _ => {
                proof {
                    assert(hap_config_of(cells@[n]) is None);
                }
            },
        }
        proof {
            lemma_some_hap_step(cells@, n, |c: HapRunConfig| true);
            assert forall|x: usize| #[trigger] iotas@.contains(x) <==> some_hap(
                cells@,
                n + 1,
                |c: HapRunConfig| c.iota_max == x,
            ) by {
                lemma_some_hap_step(cells@, n, |c: HapRunConfig| c.iota_max == x);
            }
            assert forall|x: usize| #[trigger] rhos@.contains(x) <==> some_hap(
                cells@,
                n + 1,
                |c: HapRunConfig| c.rho == x,
            ) by {
                lemma_some_hap_step(cells@, n, |c: HapRunConfig| c.rho == x);
            }
            assert forall|x: usize| #[trigger] pops@.contains(x) <==> some_hap(
                cells@,
                n + 1,
                |c: HapRunConfig| c.population_size == x,
            ) by {
                lemma_some_hap_step(cells@, n, |c: HapRunConfig| c.population_size == x);
            }
            assert forall|x: HapSurvivorMode| #[trigger] modes@.contains(x) <==> some_hap(
                cells@,
                n + 1,
                |c: HapRunConfig| c.survivor_mode == x,
            ) by {
                lemma_some_hap_step(cells@, n, |c: HapRunConfig| c.survivor_mode == x);
            }
            assert forall|x: usize| #[trigger] caps@.contains(x) <==> some_hap(
                cells@,
                n + 1,
                |c: HapRunConfig| c.survivor_cap == x,
            ) by {
                lemma_some_hap_step(cells@, n, |c: HapRunConfig| c.survivor_cap == x);
            }
            assert forall|x: u64| #[trigger] seeds@.contains(x) <==> some_hap(
                cells@,
                n + 1,
                |c: HapRunConfig| c.seed == x,
            ) by {
                lemma_some_hap_step(cells@, n, |c: HapRunConfig| c.seed == x);
            }
        }
        i = i + 1;
    }
    if !any {
        return None;
    }
    Some(
        HapSweepAxes {
            iota_max_values: sorted_usize(&iotas),
            rho_values: sorted_usize(&rhos),
            population_sizes: sorted_usize(&pops),
            survivor_modes: modes,
            survivor_caps: sorted_usize(&caps),
            seeds: sorted_u64(&seeds),
        },
    )
}

/// Name of the migrated experiment: `migrated-` and the name of the former
/// run directory, `legacy` when it has none.
pub fn migrated_experiment_name(dir_name: Option<&str>) -> (s: String)
    ensures
        s@ == "migrated-"@ + match dir_name {
            Some(d) => d@,
            None => "legacy"@,
        },
{
    let mut s = owned("migrated-");
    match dir_name {
        Some(d) => push_str(&mut s, d),
        None => push_str(&mut s, "legacy"),
    }
    s
}

/// The experiment specification recorded for a migrated run: the one
/// dataset, the EST block then the HAP block when present, no parallelism
/// bound.
pub fn migrated_spec(
    name: String,
    dataset: DatasetEntry,
    est: Option<EstSweepAxes>,
    hap: Option<HapSweepAxes>,
    output_dir: String,
) -> (s: ExperimentSpec)
    ensures
        s.name == name,
        s.datasets@ == seq![dataset],
        s.algorithms@.len() == (if est is Some {
            1int
        } else {
            0
        }) + (if hap is Some {
            1int
        } else {
            0
        }),
        est is Some ==> s.algorithms@[0] == (AlgorithmSweep::Est { axes: est->Some_0 }),
        hap is Some ==> s.algorithms@.last() == (AlgorithmSweep::Hap { axes: hap->Some_0 }),
        s.max_parallel is None,
        s.output_dir == Some(output_dir),
{
    let mut algorithms: Vec<AlgorithmSweep> = Vec::new();
    if let Some(a) = est {
        algorithms.push(AlgorithmSweep::Est { axes: a });
    }
    if let Some(a) = hap {
        algorithms.push(AlgorithmSweep::Hap { axes: a });
    }
    let mut datasets: Vec<DatasetEntry> = Vec::new();
    datasets.push(dataset);
    ExperimentSpec { name, datasets, algorithms, max_parallel: None, output_dir: Some(output_dir) }
}

/// A former EST or HAP run is rebuilt with each parameter it gives taken
/// from the field of the same name, and each parameter it omits at the
/// algorithm's default (EST: soft-constraint figure of merit, threshold 1,
/// 1 beam, branching 1; HAP: iota_max 128, rho 3, population 4, elitist
/// top-k survivors capped at 4, seed 0).
pub proof fn lemma_legacy_config_fields(run: LegacyRunEntry)
    ensures
        run.algorithm@ == "est"@ ==> {
            &&& spec_legacy_config(run) is Ok
            &&& spec_legacy_config(run)->Ok_0 is Est
            &&& spec_legacy_config(run)->Ok_0->Est_0.fom == FomKind::SoftConstraint
            &&& run.endangered_threshold is Some ==> spec_legacy_config(run)->Ok_0->Est_0.endangered_threshold == run.endangered_threshold->Some_0
            &&& run.endangered_threshold is None ==> spec_legacy_config(run)->Ok_0->Est_0.endangered_threshold == 1
            &&& run.k_beams is Some ==> spec_legacy_config(run)->Ok_0->Est_0.k_beams == run.k_beams->Some_0
            &&& run.k_beams is None ==> spec_legacy_config(run)->Ok_0->Est_0.k_beams == 1
            &&& run.branching_factor is Some ==> spec_legacy_config(run)->Ok_0->Est_0.branching_factor == run.branching_factor->Some_0
            &&& run.branching_factor is None ==> spec_legacy_config(run)->Ok_0->Est_0.branching_factor == 1
        },
        run.algorithm@ == "hap"@ ==> {
            &&& spec_legacy_config(run) is Ok
            &&& spec_legacy_config(run)->Ok_0 is Hap
            &&& run.iota_max is Some ==> spec_legacy_config(run)->Ok_0->Hap_0.iota_max == run.iota_max->Some_0
            &&& run.iota_max is None ==> spec_legacy_config(run)->Ok_0->Hap_0.iota_max == 128
            &&& run.rho is Some ==> spec_legacy_config(run)->Ok_0->Hap_0.rho == run.rho->Some_0
            &&& run.rho is None ==> spec_legacy_config(run)->Ok_0->Hap_0.rho == 3
            &&& run.population_size is Some ==> spec_legacy_config(run)->Ok_0->Hap_0.population_size == run.population_size->Some_0
            &&& run.population_size is None ==> spec_legacy_config(run)->Ok_0->Hap_0.population_size == 4
            &&& run.survivor_mode is Some ==> spec_legacy_config(run)->Ok_0->Hap_0.survivor_mode == run.survivor_mode->Some_0
            &&& run.survivor_mode is None ==> spec_legacy_config(run)->Ok_0->Hap_0.survivor_mode == HapSurvivorMode::ElitistTopK
            &&& run.survivor_cap is Some ==> spec_legacy_config(run)->Ok_0->Hap_0.survivor_cap == run.survivor_cap->Some_0
            &&& run.survivor_cap is None ==> spec_legacy_config(run)->Ok_0->Hap_0.survivor_cap == 4
            &&& run.seed is Some ==> spec_legacy_config(run)->Ok_0->Hap_0.seed == run.seed->Some_0
            &&& run.seed is None ==> spec_legacy_config(run)->Ok_0->Hap_0.seed == 0
        },
        !(run.algorithm@ == "est"@ || run.algorithm@ == "hap"@) ==> spec_legacy_config(run) is Err,
{
    reveal_strlit("est");
    reveal_strlit("hap");
    assert("est"@[0] == 'e');
    assert("hap"@[0] == 'h');
}

} // verus!
