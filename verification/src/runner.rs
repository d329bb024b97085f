//! Decisions of a matrix execution.
//!
//! Running a matrix alternates outside work (registry lookups, dataset
//! preparation, scheduler runs on a thread pool) with decisions. The
//! decisions live here: which cells run, which are skipped or re-run, which
//! datasets are prepared, how many workers the pool gets, the state events a
//! cell emits, and the counts reported at the end.
use vstd::prelude::*;
use vstd::string::*;

use crate::cell::MatrixCell;
use crate::state::{CellStatus, StateEvent};
use crate::text::{owned, str_eq};

verus! {

/// Options of a matrix execution.
#[derive(Debug, Clone)]
pub struct RunOptions {
    /// Path of the registry file; the default registry when absent.
    pub run_db: Option<String>,
    /// Re-run cells whose run key the registry already holds, overwriting
    /// the stored result.
    pub override_existing: bool,
}

impl Default for RunOptions {
    fn default() -> (r: Self)
        ensures
            r.run_db is None,
            !r.override_existing,
    {
        RunOptions { run_db: None, override_existing: false }
    }
}

/// Counts reported by a matrix execution.
#[derive(Debug, Clone, Copy, PartialEq, Eq)]
pub struct RunSummary {
    /// Cells in the matrix.
    pub total: usize,
    /// Cells not run because the registry held their run key.
    pub skipped: usize,
    /// Cells re-run although the registry held their run key.
    pub overridden: usize,
    /// Cells whose run succeeded.
    pub completed: usize,
    /// Cells whose run failed.
    pub failed: usize,
}

/// What the registry answered for a cell's run key.
#[derive(Debug, Clone, Copy, PartialEq, Eq)]
pub enum RegistryLookup {
    /// The registry holds the run key.
    Present,
    /// The registry does not hold the run key.
    Absent,
    /// No answer: the identity could not be computed or the lookup failed.
    Unavailable,
}

/// What happens to a cell.
#[derive(Debug, Clone, Copy, PartialEq, Eq)]
pub enum CellAction {
    /// Not run: its result is already stored.
    Skip,
    /// Run again, replacing the stored result.
    Rerun,
    /// Run: no stored result is known.
    Run,
}

pub open spec fn spec_cell_action(lookup: RegistryLookup, override_existing: bool) -> CellAction {
    match lookup {
        RegistryLookup::Present => if override_existing {
            CellAction::Rerun
        } else {
            CellAction::Skip
        },
        _ => CellAction::Run,
    }
}

/// The action for a cell: a stored result is skipped unless overriding; a
/// missing or unknown one is run.
pub fn cell_action(lookup: RegistryLookup, override_existing: bool) -> (a: CellAction)
    ensures
        a == spec_cell_action(lookup, override_existing),
{
    match lookup {
        RegistryLookup::Present => if override_existing {
            CellAction::Rerun
        } else {
            CellAction::Skip
        },
        RegistryLookup::Absent => CellAction::Run,
        RegistryLookup::Unavailable => CellAction::Run,
    }
}

/// Indices, in order, of the first `n` cells that are not skipped.
pub open spec fn run_indices(lookups: Seq<RegistryLookup>, ov: bool, n: nat) -> Seq<int>
    decreases n,
{
    if n == 0 {
        Seq::empty()
    } else {
        let prev = run_indices(lookups, ov, (n - 1) as nat);
        if spec_cell_action(lookups[n - 1], ov) == CellAction::Skip {
            prev
        } else {
            prev.push(n - 1)
        }
    }
}

/// How many of the first `n` cells get action `a`.
pub open spec fn action_count(lookups: Seq<RegistryLookup>, ov: bool, n: nat, a: CellAction) -> nat
    decreases n,
{
    if n == 0 {
        0
    } else {
        action_count(lookups, ov, (n - 1) as nat, a) + if spec_cell_action(lookups[n - 1], ov)
            == a {
            1nat
        } else {
            0nat
        }
    }
}

/// The cells to run and the counts of skipped and re-run cells.
#[derive(Debug, Clone)]
pub struct RunPlan {
    /// Indices of the cells to run, in matrix order.
    pub to_run: Vec<usize>,
    pub skipped: usize,
    pub overridden: usize,
}

pub open spec fn usize_seq_view(v: Seq<usize>) -> Seq<int> {
    v.map_values(|i: usize| i as int)
}

/// Classifies every cell of the matrix by its registry lookup.
pub fn plan_runs(lookups: &Vec<RegistryLookup>, override_existing: bool) -> (p: RunPlan)
    ensures
        usize_seq_view(p.to_run@) == run_indices(lookups@, override_existing, lookups@.len()),
        p.skipped == action_count(lookups@, override_existing, lookups@.len(), CellAction::Skip),
        p.overridden == action_count(
            lookups@,
            override_existing,
            lookups@.len(),
            CellAction::Rerun,
        ),
{
    let mut to_run: Vec<usize> = Vec::new();
    let mut skipped: usize = 0;
    let mut overridden: usize = 0;
    let mut i: usize = 0;
    while i < lookups.len()
        invariant
            i <= lookups.len(),
            usize_seq_view(to_run@) == run_indices(lookups@, override_existing, i as nat),
            skipped == action_count(lookups@, override_existing, i as nat, CellAction::Skip),
            overridden == action_count(lookups@, override_existing, i as nat, CellAction::Rerun),
            skipped <= i,
            overridden <= i,
        decreases lookups.len() - i,
    {
        let a = cell_action(lookups[i], override_existing);
        proof {
            assert(lookups@[i as int] == lookups[i as int]);
        }
        match a {
            CellAction::Skip => {
                skipped = skipped + 1;
            },
            CellAction::Rerun => {
                overridden = overridden + 1;
                to_run.push(i);
            },
            CellAction::Run => {
                to_run.push(i);
            },
        }
        proof {
            assert(usize_seq_view(to_run@) =~= run_indices(
                lookups@,
                override_existing,
                (i + 1) as nat,
            ));
        }
        i = i + 1;
    }
    RunPlan { to_run, skipped, overridden }
}

/// Every cell is either skipped or run: the skipped count and the number of
/// cells to run add up to the size of the matrix.
pub proof fn lemma_plan_partitions(lookups: Seq<RegistryLookup>, ov: bool, n: nat)
    requires
        n <= lookups.len(),
    ensures
        action_count(lookups, ov, n, CellAction::Skip) + run_indices(lookups, ov, n).len() == n,
    decreases n,
{
    if n > 0 {
        lemma_plan_partitions(lookups, ov, (n - 1) as nat);
    }
}

/// When overriding, no cell is skipped; otherwise no cell is re-run.
pub proof fn lemma_override_skips_nothing(lookups: Seq<RegistryLookup>, ov: bool, n: nat)
    requires
        n <= lookups.len(),
    ensures
        ov ==> action_count(lookups, ov, n, CellAction::Skip) == 0,
        !ov ==> action_count(lookups, ov, n, CellAction::Rerun) == 0,
    decreases n,
{
    if n > 0 {
        lemma_override_skips_nothing(lookups, ov, (n - 1) as nat);
    }
}

/// A cell is left out of the run exactly when the registry holds its run key
/// and the execution does not override stored results.
pub proof fn lemma_skipped_iff_stored(lookups: Seq<RegistryLookup>, ov: bool, n: nat, j: int)
    requires
        n <= lookups.len(),
        0 <= j < n,
    ensures
        run_indices(lookups, ov, n).contains(j) <==> !(lookups[j] == RegistryLookup::Present
            && !ov),
    decreases n,
{
    let p = (n - 1) as nat;
    let prev = run_indices(lookups, ov, p);
    let cur = run_indices(lookups, ov, n);
    lemma_run_indices_below(lookups, ov, p);
    if j < n - 1 {
        lemma_skipped_iff_stored(lookups, ov, p, j);
        if spec_cell_action(lookups[n - 1], ov) != CellAction::Skip {
            lemma_push_contains(prev, n - 1, j);
        }
    } else {
        if prev.contains(j) {
            let k = choose|k: int| 0 <= k < prev.len() && prev[k] == j;
            assert(prev[k] < p);
        }
        if spec_cell_action(lookups[n - 1], ov) != CellAction::Skip {
            assert(cur[prev.len() as int] == j);
        }
    }
}

proof fn lemma_run_indices_below(lookups: Seq<RegistryLookup>, ov: bool, n: nat)
    requires
        n <= lookups.len(),
    ensures
        forall|k: int|
            0 <= k < run_indices(lookups, ov, n).len() ==> 0 <= #[trigger] run_indices(
                lookups,
                ov,
                n,
            )[k] < n,
    decreases n,
{
    if n > 0 {
        let p = (n - 1) as nat;
        lemma_run_indices_below(lookups, ov, p);
        let prev = run_indices(lookups, ov, p);
        let cur = run_indices(lookups, ov, n);
        assert forall|k: int| 0 <= k < cur.len() implies 0 <= #[trigger] cur[k] < n by {
            if k < prev.len() {
                assert(cur[k] == prev[k]);
            }
        }
    }
}

/// Membership after a push: the old members and the pushed element.
pub proof fn lemma_push_contains<A>(s: Seq<A>, a: A, x: A)
    ensures
        s.push(a).contains(x) <==> (s.contains(x) || a == x),
{
    if s.push(a).contains(x) {
        let k = choose|k: int| 0 <= k < s.push(a).len() && s.push(a)[k] == x;
        if k < s.len() {
            assert(s[k] == x);
        }
    }
    if s.contains(x) {
        let k = choose|k: int| 0 <= k < s.len() && s[k] == x;
        assert(s.push(a)[k] == x);
    }
    if a == x {
        assert(s.push(a)[s.len() as int] == x);
    }
}

/// Workers of the pool: the configured bound (at least one), or else the
/// number of cores, but no more than the cells to run and at least one.
pub open spec fn spec_worker_count(max_parallel: Option<usize>, cpus: nat, to_run: nat) -> nat {
    match max_parallel {
        Some(n) => if n < 1 {
            1
        } else {
            n as nat
        },
        None => {
            let cells = if to_run < 1 {
                1
            } else {
                to_run
            };
            let m = if cpus < cells {
                cpus
            } else {
                cells
            };
            if m < 1 {
                1
            } else {
                m
            }
        },
    }
}

pub fn worker_count(max_parallel: Option<usize>, cpus: usize, to_run: usize) -> (n: usize)
    ensures
        n == spec_worker_count(max_parallel, cpus as nat, to_run as nat),
        n >= 1,
{
    match max_parallel {
        Some(n) => if n < 1 {
            1
        } else {
            n
        },
        None => {
            let cells = if to_run < 1 {
                1
            } else {
                to_run
            };
            let m = if cpus < cells {
                cpus
            } else {
                cells
            };
            if m < 1 {
                1
            } else {
                m
            }
        },
    }
}

/// Indices `i` whose id does not occur before `i`: the first cell of each
/// dataset.
pub open spec fn first_occurrences(ids: Seq<Seq<char>>, n: nat) -> Seq<int>
    decreases n,
{
    if n == 0 {
        Seq::empty()
    } else {
        let prev = first_occurrences(ids, (n - 1) as nat);
        if ids.take(n - 1).contains(ids[n - 1]) {
            prev
        } else {
            prev.push(n - 1)
        }
    }
}

pub open spec fn string_views(v: Seq<String>) -> Seq<Seq<char>> {
    v.map_values(|s: String| s@)
}

/// The cells whose dataset is prepared: the first cell of each distinct
/// dataset id, in order. Each dataset is prepared exactly once.
pub fn datasets_to_prepare(dataset_ids: &Vec<String>) -> (r: Vec<usize>)
    ensures
        usize_seq_view(r@) == first_occurrences(string_views(dataset_ids@), dataset_ids@.len()),
{
    let ghost ids = string_views(dataset_ids@);
    let mut r: Vec<usize> = Vec::new();
    let mut i: usize = 0;
    while i < dataset_ids.len()
        invariant
            i <= dataset_ids.len(),
            ids == string_views(dataset_ids@),
            usize_seq_view(r@) == first_occurrences(ids, i as nat),
        decreases dataset_ids.len() - i,
    {
        let mut seen = false;
        let mut j: usize = 0;
        while j < i
            invariant
                j <= i < dataset_ids.len(),
                ids == string_views(dataset_ids@),
                seen <==> ids.take(j as int).contains(ids[i as int]),
            decreases i - j,
        {
            let same = str_eq(dataset_ids[j].as_str(), dataset_ids[i].as_str());
            proof {
                assert(ids[j as int] == dataset_ids@[j as int]@);
                assert(ids[i as int] == dataset_ids@[i as int]@);
                assert(ids.take(j + 1) =~= ids.take(j as int).push(ids[j as int]));
                lemma_push_contains(ids.take(j as int), ids[j as int], ids[i as int]);
            }
            if same {
                seen = true;
            }
            j = j + 1;
        }
        if !seen {
            r.push(i);
        }
        proof {
            assert(usize_seq_view(r@) =~= first_occurrences(ids, (i + 1) as nat));
        }
        i = i + 1;
    }
    r
}

proof fn lemma_first_occ_bounds(ids: Seq<Seq<char>>, n: nat)
    requires
        n <= ids.len(),
    ensures
        forall|m: int|
            0 <= m < first_occurrences(ids, n).len() ==> 0 <= #[trigger] first_occurrences(
                ids,
                n,
            )[m] < n,
    decreases n,
{
    if n > 0 {
        let p = (n - 1) as nat;
        lemma_first_occ_bounds(ids, p);
        let prev = first_occurrences(ids, p);
        let cur = first_occurrences(ids, n);
        assert forall|m: int| 0 <= m < cur.len() implies 0 <= #[trigger] cur[m] < n by {
            if m < prev.len() {
                assert(cur[m] == prev[m]);
            }
        }
    }
}

proof fn lemma_first_occ_cover(ids: Seq<Seq<char>>, n: nat, k: int)
    requires
        n <= ids.len(),
        0 <= k < n,
    ensures
        exists|m: int|
            #![trigger first_occurrences(ids, n)[m]]
            0 <= m < first_occurrences(ids, n).len() && ids[first_occurrences(ids, n)[m]]
                == ids[k],
    decreases n,
{
    let p = (n - 1) as nat;
    let prev = first_occurrences(ids, p);
    let cur = first_occurrences(ids, n);
    if k < n - 1 {
        lemma_first_occ_cover(ids, p, k);
        let m = choose|m: int| #![trigger prev[m]] 0 <= m < prev.len() && ids[prev[m]] == ids[k];
        assert(cur[m] == prev[m]);
    } else if ids.take(n - 1).contains(ids[n - 1]) {
        let q = choose|q: int|
            #![trigger ids.take(n - 1)[q]]
            0 <= q < ids.take(n - 1).len() && ids.take(n - 1)[q] == ids[n - 1];
        assert(ids[q] == ids[k]);
        lemma_first_occ_cover(ids, p, q);
        let m = choose|m: int| #![trigger prev[m]] 0 <= m < prev.len() && ids[prev[m]] == ids[q];
        assert(cur[m] == prev[m]);
    } else {
        assert(cur[prev.len() as int] == n - 1);
    }
}

proof fn lemma_first_occ_distinct(ids: Seq<Seq<char>>, n: nat)
    requires
        n <= ids.len(),
    ensures
        forall|a: int, b: int|
            0 <= a < b < first_occurrences(ids, n).len() ==> ids[first_occurrences(ids, n)[a]]
                != ids[first_occurrences(ids, n)[b]],
    decreases n,
{
    if n > 0 {
        let p = (n - 1) as nat;
        lemma_first_occ_distinct(ids, p);
        lemma_first_occ_bounds(ids, p);
        let prev = first_occurrences(ids, p);
        let cur = first_occurrences(ids, n);
        assert forall|a: int, b: int| 0 <= a < b < cur.len() implies ids[cur[a]] != ids[cur[b]] by {
            assert(cur[a] == prev[a]);
            if b < prev.len() {
                assert(cur[b] == prev[b]);
            } else {
                assert(cur[b] == n - 1);
                assert(0 <= prev[a] < n - 1);
                assert(ids.take(n - 1)[prev[a]] == ids[prev[a]]);
            }
        }
    }
}

/// Every dataset id is prepared through exactly one of its cells: the first
/// occurrences cover every id, and no two of them share an id.
pub proof fn lemma_each_dataset_once(ids: Seq<Seq<char>>, n: nat)
    requires
        n <= ids.len(),
    ensures
        forall|k: int|
            #![trigger ids[k]]
            0 <= k < n ==> exists|m: int|
                #![trigger first_occurrences(ids, n)[m]]
                0 <= m < first_occurrences(ids, n).len() && ids[first_occurrences(ids, n)[m]]
                    == ids[k],
        forall|a: int, b: int|
            0 <= a < b < first_occurrences(ids, n).len() ==> ids[first_occurrences(ids, n)[a]]
                != ids[first_occurrences(ids, n)[b]],
        forall|m: int|
            0 <= m < first_occurrences(ids, n).len() ==> 0 <= #[trigger] first_occurrences(
                ids,
                n,
            )[m] < n,
{
    lemma_first_occ_bounds(ids, n);
    lemma_first_occ_distinct(ids, n);
    assert forall|k: int| #![trigger ids[k]] 0 <= k < n implies exists|m: int|
        #![trigger first_occurrences(ids, n)[m]]
        0 <= m < first_occurrences(ids, n).len() && ids[first_occurrences(ids, n)[m]] == ids[k] by {
        lemma_first_occ_cover(ids, n, k);
    }
}

/// The only contradictory flag pair of a resumable run.
pub fn check_run_flags(resume: bool, no_state_log: bool) -> (r: Result<(), String>)
    ensures
        r is Err <==> (resume && no_state_log),
        r is Err ==> r->Err_0@ == "--no-state and --resume are mutually exclusive"@,
{
    if no_state_log && resume {
        Err(owned("--no-state and --resume are mutually exclusive"))
    } else {
        Ok(())
    }
}

/// Indices, in order, of the first `n` cells whose id is not among `done`.
pub open spec fn pending_indices(cell_ids: Seq<Seq<char>>, done: Seq<Seq<char>>, n: nat) -> Seq<
    int,
>
    decreases n,
{
    if n == 0 {
        Seq::empty()
    } else {
        let prev = pending_indices(cell_ids, done, (n - 1) as nat);
        if done.contains(cell_ids[n - 1]) {
            prev
        } else {
            prev.push(n - 1)
        }
    }
}

pub open spec fn cell_ids(cells: Seq<MatrixCell>) -> Seq<Seq<char>> {
    cells.map_values(|c: MatrixCell| c.cell_id@)
}

/// The cells of a resumed run that still have to run: those whose id is not
/// among the completed ones.
pub fn pending_cells(cells: &Vec<MatrixCell>, done: &Vec<String>) -> (r: Vec<usize>)
    ensures
        usize_seq_view(r@) == pending_indices(
            cell_ids(cells@),
            string_views(done@),
            cells@.len(),
        ),
{
    let ghost ids = cell_ids(cells@);
    let ghost dv = string_views(done@);
    let mut r: Vec<usize> = Vec::new();
    let mut i: usize = 0;
    while i < cells.len()
        invariant
            i <= cells.len(),
            ids == cell_ids(cells@),
            dv == string_views(done@),
            usize_seq_view(r@) == pending_indices(ids, dv, i as nat),
        decreases cells.len() - i,
    {
        let mut found = false;
        let mut j: usize = 0;
        while j < done.len()
            invariant
                i < cells.len(),
                j <= done.len(),
                ids == cell_ids(cells@),
                dv == string_views(done@),
                found <==> dv.take(j as int).contains(ids[i as int]),
            decreases done.len() - j,
        {
            let same = str_eq(done[j].as_str(), cells[i].cell_id.as_str());
            proof {
                assert(dv[j as int] == done@[j as int]@);
                assert(ids[i as int] == cells@[i as int].cell_id@);
                assert(dv.take(j + 1) =~= dv.take(j as int).push(dv[j as int]));
                lemma_push_contains(dv.take(j as int), dv[j as int], ids[i as int]);
            }
            if same {
                found = true;
            }
            j = j + 1;
        }
        proof {
            assert(dv.take(done@.len() as int) =~= dv);
        }
        if !found {
            r.push(i);
        }
        proof {
            assert(usize_seq_view(r@) =~= pending_indices(ids, dv, (i + 1) as nat));
        }
        i = i + 1;
    }
    r
}

/// How many of the first `n` outcomes are successes.
pub open spec fn success_count(outcomes: Seq<bool>, n: nat) -> nat
    decreases n,
{
    if n == 0 {
        0
    } else {
        success_count(outcomes, (n - 1) as nat) + if outcomes[n - 1] {
            1nat
        } else {
            0nat
        }
    }
}

proof fn lemma_success_count_bound(outcomes: Seq<bool>, n: nat)
    requires
        n <= outcomes.len(),
    ensures
        success_count(outcomes, n) <= n,
    decreases n,
{
    if n > 0 {
        lemma_success_count_bound(outcomes, (n - 1) as nat);
    }
}

/// The summary of an execution of `total` cells planned by `plan`:
/// `outcomes[i]` tells whether the `i`-th cell that ran succeeded. Every
/// cell is counted once, as skipped, completed or failed.
pub fn summarize(total: usize, plan: &RunPlan, outcomes: &Vec<bool>) -> (s: RunSummary)
    requires
        outcomes@.len() == plan.to_run@.len(),
        plan.skipped + plan.to_run@.len() == total,
    ensures
        s.skipped + s.completed + s.failed == s.total,
        s.total == total,
        s.skipped == plan.skipped,
        s.overridden == plan.overridden,
        s.completed == success_count(outcomes@, outcomes@.len()),
        s.completed + s.failed == outcomes@.len(),
{
    let mut completed: usize = 0;
    let mut i: usize = 0;
    while i < outcomes.len()
        invariant
            i <= outcomes.len(),
            completed == success_count(outcomes@, i as nat),
            completed <= i,
        decreases outcomes.len() - i,
    {
        if outcomes[i] {
            completed = completed + 1;
        }
        i = i + 1;
    }
    RunSummary {
        total,
        skipped: plan.skipped,
        overridden: plan.overridden,
        completed,
        failed: outcomes.len() - completed,
    }
}

/// The summary of a run into a run directory, where cells completed in an
/// earlier run are left out before the registry is asked.
#[derive(Debug, Clone)]
pub struct ResumeSummary {
    /// Cells of the matrix.
    pub total: usize,
    /// Cells of the matrix already completed in the run directory.
    pub already_done: usize,
    /// Cells answered from the registry without running.
    pub registry_hits: usize,
    /// Cells that ran and succeeded.
    pub completed: usize,
    /// Cells that ran and failed.
    pub failed: usize,
    /// The run directory.
    pub run_dir: String,
}

/// The summary of a resumed run: of `total` cells, `pending` were not yet
/// completed and were planned by `plan`; `outcomes[i]` tells whether the
/// `i`-th cell that ran succeeded, in the run directory `run_dir`. Every
/// cell is counted once.
pub fn summarize_resume(
    total: usize,
    pending: usize,
    plan: &RunPlan,
    outcomes: &Vec<bool>,
    run_dir: String,
) -> (s: ResumeSummary)
    requires
        pending <= total,
        outcomes@.len() == plan.to_run@.len(),
        plan.skipped + plan.to_run@.len() == pending,
    ensures
        s.total == total,
        s.already_done == total - pending,
        s.registry_hits == plan.skipped,
        s.completed == success_count(outcomes@, outcomes@.len()),
        s.already_done + s.registry_hits + s.completed + s.failed == s.total,
        s.run_dir == run_dir,
{
    let ran = summarize(pending, plan, outcomes);
    ResumeSummary {
        total,
        already_done: total - pending,
        registry_hits: ran.skipped,
        completed: ran.completed,
        failed: ran.failed,
        run_dir,
    }
}

/// The event a cell emits when its run starts.
pub fn started_event(cell_id: &str, started_at: &str) -> (e: StateEvent)
    ensures
        e.cell_id@ == cell_id@,
        e.status == CellStatus::Started,
        e.schedule_path is None,
        e.metrics_path is None,
        e.error is None,
        e.started_at@ == started_at@,
        e.finished_at is None,
{
    StateEvent {
        cell_id: owned(cell_id),
        status: CellStatus::Started,
        schedule_path: None,
        metrics_path: None,
        error: None,
        started_at: owned(started_at),
        finished_at: None,
    }
}

/// The event a cell emits when its run ends: completed with the schedule
/// written, or failed with the error.
pub fn finished_event(
    cell_id: &str,
    outcome: Result<String, String>,
    started_at: &str,
    finished_at: &str,
) -> (e: StateEvent)
    ensures
        e.cell_id@ == cell_id@,
        e.started_at@ == started_at@,
        e.finished_at is Some && e.finished_at->Some_0@ == finished_at@,
        e.metrics_path is None,
        match outcome {
            Ok(p) => e.status == CellStatus::Completed && e.schedule_path == Some(p)
                && e.error is None,
            Err(m) => e.status == CellStatus::Failed && e.schedule_path is None && e.error == Some(
                m,
            ),
        },
{
    match outcome {
        Ok(p) => StateEvent {
            cell_id: owned(cell_id),
            status: CellStatus::Completed,
            schedule_path: Some(p),
            metrics_path: None,
            error: None,
            started_at: owned(started_at),
            finished_at: Some(owned(finished_at)),
        },
        Err(m) => StateEvent {
            cell_id: owned(cell_id),
            status: CellStatus::Failed,
            schedule_path: None,
            metrics_path: None,
            error: Some(m),
            started_at: owned(started_at),
            finished_at: Some(owned(finished_at)),
        },
    }
}

/// The event recorded for a cell whose result the registry already holds:
/// completed, with no schedule written, started and finished at once.
pub fn cached_event(cell_id: &str, now: &str) -> (e: StateEvent)
    ensures
        e.cell_id@ == cell_id@,
        e.status == CellStatus::Completed,
        e.schedule_path is None,
        e.metrics_path is None,
        e.error is None,
        e.started_at@ == now@,
        e.finished_at is Some && e.finished_at->Some_0@ == now@,
{
    StateEvent {
        cell_id: owned(cell_id),
        status: CellStatus::Completed,
        schedule_path: None,
        metrics_path: None,
        error: None,
        started_at: owned(now),
        finished_at: Some(owned(now)),
    }
}

} // verus!
