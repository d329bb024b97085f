//! Matrix cell expansion: the Cartesian product
//! `dataset × algorithm × configuration` of a specification.
//!
//! Datasets keep the specification's order, and so do sweep blocks within a
//! dataset; the configurations of a block come in enumeration order without
//! duplicates. A cell id reads `<dataset_id>__<algorithm>__<config_slug>`.
use vstd::prelude::*;
use vstd::string::*;

use crate::config::{algorithm_name, HorizonOverride, RunConfig};
use crate::spec::{AlgorithmSweep, DatasetEntry, ExperimentSpec};
use crate::sweep::{first_error, resolve_configs, sweep_configs};
use crate::text::{ascii_alnum, chars_of, is_ascii_alnum, owned, push_str};

verus! {

/// One fully resolved unit of work of the experiment matrix.
#[derive(Debug, Clone)]
pub struct MatrixCell {
    /// Deterministic, filesystem-safe id of the cell.
    pub cell_id: String,
    pub dataset_id: String,
    pub dataset_path: String,
    pub dataset_label: Option<String>,
    pub horizon_override: Option<HorizonOverride>,
    /// `"est"`, `"hap"`, `"lst"` or `"multi_cursor"`.
    pub algorithm: String,
    pub run_config: RunConfig,
}

impl MatrixCell {
    /// The configuration slug portion of the cell id.
    pub fn config_slug(&self) -> (s: String)
        ensures
            s@ == self.run_config.spec_slug(),
    {
        self.run_config.slug()
    }
}

pub open spec fn opt_view(o: Option<String>) -> Option<Seq<char>> {
    match o {
        Some(s) => Some(s@),
        None => None,
    }
}

fn clone_opt(o: &Option<String>) -> (r: Option<String>)
    ensures
        opt_view(r) == opt_view(*o),
{
    match o {
        Some(s) => Some(s.clone()),
        None => None,
    }
}

/// Characters allowed in a dataset id: ASCII letters and digits, `_`, `-`.
pub open spec fn id_char(c: char) -> bool {
    is_ascii_alnum(c) || c == '_' || c == '-'
}

/// Why a dataset entry is rejected, if it is.
pub open spec fn dataset_error(d: DatasetEntry) -> Option<Seq<char>> {
    if d.id@.len() == 0 {
        Some("dataset entry has empty id"@)
    } else if exists|i: int| 0 <= i < d.id@.len() && !id_char(#[trigger] d.id@[i]) {
        Some(
            "dataset id '"@ + d.id@ + "' must be alphanumeric, '_' or '-' (used as filesystem path)"@,
        )
    } else {
        None
    }
}

/// Accepts a dataset entry whose id is a non-empty filesystem-safe slug.
pub fn validate_dataset(d: &DatasetEntry) -> (r: Result<(), String>)
    ensures
        match dataset_error(*d) {
            None => r is Ok,
            Some(e) => r is Err && r->Err_0@ == e,
        },
{
    let id = chars_of(d.id.as_str());
    if id.len() == 0 {
        return Err(owned("dataset entry has empty id"));
    }
    let mut i: usize = 0;
    while i < id.len()
        invariant
            i <= id.len(),
            id@ == d.id@,
            forall|t: int| 0 <= t < i ==> id_char(#[trigger] id@[t]),
        decreases id.len() - i,
    {
        let c = id[i];
        if !(ascii_alnum(c) || c == '_' || c == '-') {
            let mut msg = owned("dataset id '");
            push_str(&mut msg, d.id.as_str());
            push_str(&mut msg, "' must be alphanumeric, '_' or '-' (used as filesystem path)");
            return Err(msg);
        }
        i = i + 1;
    }
    Ok(())
}

/// The first error among the first `n` sweep blocks, in order.
pub open spec fn sweeps_error(sws: Seq<AlgorithmSweep>, n: nat) -> Option<Seq<char>>
    decreases n,
{
    if n == 0 {
        None
    } else {
        match sweeps_error(sws, (n - 1) as nat) {
            Some(e) => Some(e),
            None => first_error(sweep_configs(sws[n - 1])),
        }
    }
}

/// The first error met while processing the first `n` datasets: each
/// dataset entry is checked, then every sweep block is expanded.
pub open spec fn datasets_error(
    ds: Seq<DatasetEntry>,
    sws: Seq<AlgorithmSweep>,
    n: nat,
) -> Option<Seq<char>>
    decreases n,
{
    if n == 0 {
        None
    } else {
        match datasets_error(ds, sws, (n - 1) as nat) {
            Some(e) => Some(e),
            None => match dataset_error(ds[n - 1]) {
                Some(e) => Some(e),
                None => sweeps_error(sws, sws.len()),
            },
        }
    }
}

/// A planned cell: dataset index, sweep index, configuration.
pub type CellPlan = (int, int, RunConfig);

pub open spec fn sweep_plan(di: int, ai: int, sw: AlgorithmSweep) -> Seq<CellPlan> {
    sweep_configs(sw).map_values(|c: RunConfig| (di, ai, c))
}

pub open spec fn dataset_plan(di: int, sws: Seq<AlgorithmSweep>, n: nat) -> Seq<CellPlan>
    decreases n,
{
    if n == 0 {
        Seq::empty()
    } else {
        dataset_plan(di, sws, (n - 1) as nat) + sweep_plan(di, n - 1, sws[n - 1])
    }
}

/// The cells of the first `n` datasets, in matrix order.
pub open spec fn matrix_plan(ds: Seq<DatasetEntry>, sws: Seq<AlgorithmSweep>, n: nat) -> Seq<
    CellPlan,
>
    decreases n,
{
    if n == 0 {
        Seq::empty()
    } else {
        matrix_plan(ds, sws, (n - 1) as nat) + dataset_plan(n - 1, sws, sws.len())
    }
}

pub open spec fn cell_id_for(d: DatasetEntry, sw: AlgorithmSweep, c: RunConfig) -> Seq<char> {
    d.id@ + "__"@ + algorithm_name(sw.kind()) + "__"@ + c.spec_slug()
}

pub open spec fn plan_ids(
    ds: Seq<DatasetEntry>,
    sws: Seq<AlgorithmSweep>,
    plan: Seq<CellPlan>,
) -> Seq<Seq<char>> {
    plan.map_values(|p: CellPlan| cell_id_for(ds[p.0], sws[p.1], p.2))
}

/// Index of the first id already seen among the ids before it.
pub open spec fn first_duplicate(ids: Seq<Seq<char>>, n: nat) -> Option<int>
    decreases n,
{
    if n == 0 {
        None
    } else {
        match first_duplicate(ids, (n - 1) as nat) {
            Some(j) => Some(j),
            None => if ids.take(n - 1).contains(ids[n - 1]) {
                Some(n - 1)
            } else {
                None
            },
        }
    }
}

pub open spec fn spec_plan(spec: ExperimentSpec) -> Seq<CellPlan> {
    matrix_plan(spec.datasets@, spec.algorithms@, spec.datasets@.len())
}

/// Why a specification does not resolve to cells, if it does not.
pub open spec fn resolve_error(spec: ExperimentSpec) -> Option<Seq<char>> {
    let ds = spec.datasets@;
    let sws = spec.algorithms@;
    if ds.len() == 0 {
        Some("experiment spec must declare at least one dataset"@)
    } else if sws.len() == 0 {
        Some("experiment spec must declare at least one algorithm"@)
    } else {
        match datasets_error(ds, sws, ds.len()) {
            Some(e) => Some(e),
            None => {
                let ids = plan_ids(ds, sws, spec_plan(spec));
                match first_duplicate(ids, ids.len()) {
                    Some(j) => Some(
                        "duplicate cell_id '"@ + ids[j]
                            + "' (dataset/algorithm/config slug collision)"@,
                    ),
                    None => None,
                }
            },
        }
    }
}

/// `cell` is the cell that plan entry `p` describes.
pub open spec fn cell_ok(
    cell: MatrixCell,
    ds: Seq<DatasetEntry>,
    sws: Seq<AlgorithmSweep>,
    p: CellPlan,
) -> bool {
    let d = ds[p.0];
    let sw = sws[p.1];
    &&& cell.cell_id@ == cell_id_for(d, sw, p.2)
    &&& cell.dataset_id@ == d.id@
    &&& cell.dataset_path@ == d.path@
    &&& opt_view(cell.dataset_label) == opt_view(d.label)
    &&& cell.horizon_override == d.horizon_override
    &&& cell.algorithm@ == algorithm_name(sw.kind())
    &&& cell.run_config == p.2
}

pub open spec fn cells_match(
    cells: Seq<MatrixCell>,
    ds: Seq<DatasetEntry>,
    sws: Seq<AlgorithmSweep>,
    plan: Seq<CellPlan>,
) -> bool {
    &&& cells.len() == plan.len()
    &&& forall|i: int| 0 <= i < plan.len() ==> cell_ok(#[trigger] cells[i], ds, sws, plan[i])
}

proof fn lemma_sweeps_error_stable(sws: Seq<AlgorithmSweep>, n: nat, m: nat)
    requires
        n <= m,
        sweeps_error(sws, n) is Some,
    ensures
        sweeps_error(sws, m) == sweeps_error(sws, n),
    decreases m,
{
    if m > n {
        lemma_sweeps_error_stable(sws, n, (m - 1) as nat);
    }
}

proof fn lemma_datasets_error_stable(
    ds: Seq<DatasetEntry>,
    sws: Seq<AlgorithmSweep>,
    n: nat,
    m: nat,
)
    requires
        n <= m,
        datasets_error(ds, sws, n) is Some,
    ensures
        datasets_error(ds, sws, m) == datasets_error(ds, sws, n),
    decreases m,
{
    if m > n {
        lemma_datasets_error_stable(ds, sws, n, (m - 1) as nat);
    }
}

proof fn lemma_first_duplicate_stable(ids: Seq<Seq<char>>, n: nat, m: nat)
    requires
        n <= m,
        first_duplicate(ids, n) is Some,
    ensures
        first_duplicate(ids, m) == first_duplicate(ids, n),
    decreases m,
{
    if m > n {
        lemma_first_duplicate_stable(ids, n, (m - 1) as nat);
    }
}

fn make_cell(d: &DatasetEntry, sw: &AlgorithmSweep, c: RunConfig) -> (cell: MatrixCell)
    ensures
        cell.cell_id@ == cell_id_for(*d, *sw, c),
        cell.dataset_id@ == d.id@,
        cell.dataset_path@ == d.path@,
        opt_view(cell.dataset_label) == opt_view(d.label),
        cell.horizon_override == d.horizon_override,
        cell.algorithm@ == algorithm_name(sw.kind()),
        cell.run_config == c,
{
    let mut cell_id = d.id.clone();
    push_str(&mut cell_id, "__");
    push_str(&mut cell_id, sw.algorithm());
    push_str(&mut cell_id, "__");
    let slug = c.slug();
    push_str(&mut cell_id, slug.as_str());
    proof {
        assert(cell_id@ =~= cell_id_for(*d, *sw, c));
    }
    MatrixCell {
        cell_id,
        dataset_id: d.id.clone(),
        dataset_path: d.path.clone(),
        dataset_label: clone_opt(&d.label),
        horizon_override: d.horizon_override,
        algorithm: owned(sw.algorithm()),
        run_config: c,
    }
}

/// Expands a specification into its cells.
///
/// Fails when the specification declares no dataset or no algorithm, when a
/// dataset id is not a filesystem-safe slug, when a configuration is
/// rejected, or when two cells would share an id.
pub fn resolve_cells(spec: &ExperimentSpec) -> (r: Result<Vec<MatrixCell>, String>)
    ensures
        match resolve_error(*spec) {
            Some(e) => r is Err && r->Err_0@ == e,
            None => r is Ok && cells_match(
                r->Ok_0@,
                spec.datasets@,
                spec.algorithms@,
                spec_plan(*spec),
            ),
        },
{
    let ghost ds = spec.datasets@;
    let ghost sws = spec.algorithms@;
    if spec.datasets.len() == 0 {
        return Err(owned("experiment spec must declare at least one dataset"));
    }
    if spec.algorithms.len() == 0 {
        return Err(owned("experiment spec must declare at least one algorithm"));
    }
    let mut cells: Vec<MatrixCell> = Vec::new();
    let mut di: usize = 0;
    while di < spec.datasets.len()
        invariant
            ds == spec.datasets@,
            sws == spec.algorithms@,
            ds.len() > 0,
            sws.len() > 0,
            di <= ds.len(),
            datasets_error(ds, sws, di as nat) is None,
            cells_match(cells@, ds, sws, matrix_plan(ds, sws, di as nat)),
        decreases ds.len() - di,
    {
        let d = &spec.datasets[di];
        match validate_dataset(d) {
            Err(e) => {
                proof {
                    assert(datasets_error(ds, sws, (di + 1) as nat) == Some(e@));
                    lemma_datasets_error_stable(ds, sws, (di + 1) as nat, ds.len());
                }
                return Err(e);
            },
            Ok(()) => {},
        }
        let ghost base = matrix_plan(ds, sws, di as nat);
        let mut ai: usize = 0;
        while ai < spec.algorithms.len()
            invariant
                ds == spec.datasets@,
                sws == spec.algorithms@,
                ds.len() > 0,
                sws.len() > 0,
                di < ds.len(),
                ai <= sws.len(),
                *d == ds[di as int],
                dataset_error(*d) is None,
                datasets_error(ds, sws, di as nat) is None,
                base == matrix_plan(ds, sws, di as nat),
                sweeps_error(sws, ai as nat) is None,
                cells_match(cells@, ds, sws, base + dataset_plan(di as int, sws, ai as nat)),
            decreases sws.len() - ai,
        {
            let sw = &spec.algorithms[ai];
            let configs = match resolve_configs(sw) {
                Err(e) => {
                    proof {
                        assert(sweeps_error(sws, (ai + 1) as nat) == Some(e@));
                        lemma_sweeps_error_stable(sws, (ai + 1) as nat, sws.len());
                        assert(datasets_error(ds, sws, (di + 1) as nat) == Some(e@));
                        lemma_datasets_error_stable(ds, sws, (di + 1) as nat, ds.len());
                    }
                    return Err(e);
                },
                Ok(v) => v,
            };
            let ghost prefix = base + dataset_plan(di as int, sws, ai as nat);
            let ghost sp = sweep_plan(di as int, ai as int, *sw);
            let mut k: usize = 0;
            while k < configs.len()
                invariant
                    ds == spec.datasets@,
                    sws == spec.algorithms@,
                    di < ds.len(),
                    ai < sws.len(),
                    *d == ds[di as int],
                    *sw == sws[ai as int],
                    configs@ == sweep_configs(*sw),
                    sp == sweep_plan(di as int, ai as int, *sw),
                    k <= configs.len(),
                    cells_match(cells@, ds, sws, prefix + sp.take(k as int)),
                decreases configs.len() - k,
            {
                let cell = make_cell(d, sw, configs[k]);
                let ghost old_cells = cells@;
                cells.push(cell);
                proof {
                    let np = prefix + sp.take(k + 1);
                    assert(np =~= (prefix + sp.take(k as int)).push(sp[k as int]));
                    assert forall|i: int| 0 <= i < np.len() implies cell_ok(
                        #[trigger] cells@[i],
                        ds,
                        sws,
                        np[i],
                    ) by {
                        if i < old_cells.len() {
                            assert(cells@[i] == old_cells[i]);
                        }
                    }
                }
                k = k + 1;
            }
            proof {
                assert(sp.take(configs@.len() as int) =~= sp);
                assert(dataset_plan(di as int, sws, (ai + 1) as nat) == dataset_plan(
                    di as int,
                    sws,
                    ai as nat,
                ) + sweep_plan(di as int, ai as int, sws[ai as int]));
                assert(prefix + sp =~= base + dataset_plan(di as int, sws, (ai + 1) as nat));
            }
            ai = ai + 1;
        }
        proof {
            assert(matrix_plan(ds, sws, (di + 1) as nat) == base + dataset_plan(
                di as int,
                sws,
                sws.len(),
            ));
        }
        di = di + 1;
    }
    let ghost plan = matrix_plan(ds, sws, ds.len());
    let ghost ids = plan_ids(ds, sws, plan);
    assert(ids.len() == cells@.len());
    assert forall|t: int| 0 <= t < ids.len() implies #[trigger] ids[t] == cells@[t].cell_id@ by {
        assert(cell_ok(cells@[t], ds, sws, plan[t]));
    }
    let mut j: usize = 0;
    while j < cells.len()
        invariant
            j <= cells.len(),
            ids.len() == cells@.len(),
            forall|t: int| 0 <= t < ids.len() ==> #[trigger] ids[t] == cells@[t].cell_id@,
            first_duplicate(ids, j as nat) is None,
            ds == spec.datasets@,
            sws == spec.algorithms@,
            ds.len() > 0,
            sws.len() > 0,
            datasets_error(ds, sws, ds.len()) is None,
            ids == plan_ids(ds, sws, spec_plan(*spec)),
            cells_match(cells@, ds, sws, spec_plan(*spec)),
        decreases cells.len() - j,
    {
        let mut i: usize = 0;
        while i < j
            invariant
                i <= j,
                j < cells.len(),
                ids.len() == cells@.len(),
                forall|t: int| 0 <= t < ids.len() ==> #[trigger] ids[t] == cells@[t].cell_id@,
                forall|t: int| 0 <= t < i ==> ids[t] != ids[j as int],
                first_duplicate(ids, j as nat) is None,
                ds == spec.datasets@,
                sws == spec.algorithms@,
                ds.len() > 0,
                sws.len() > 0,
                datasets_error(ds, sws, ds.len()) is None,
                ids == plan_ids(ds, sws, spec_plan(*spec)),
            decreases j - i,
        {
            if cells[i].cell_id == cells[j].cell_id {
                let mut msg = owned("duplicate cell_id '");
                push_str(&mut msg, cells[j].cell_id.as_str());
                push_str(&mut msg, "' (dataset/algorithm/config slug collision)");
                proof {
                    assert(ids.take(j as int)[i as int] == ids[j as int]);
                    assert(first_duplicate(ids, (j + 1) as nat) == Some(j as int));
                    lemma_first_duplicate_stable(ids, (j + 1) as nat, ids.len());
                }
                return Err(msg);
            }
            i = i + 1;
        }
        proof {
            if ids.take(j as int).contains(ids[j as int]) {
                let t = choose|t: int| 0 <= t < j && #[trigger] ids.take(j as int)[t] == ids[j as int];
                assert(ids[t] != ids[j as int]);
            }
        }
        j = j + 1;
    }
    Ok(cells)
}

proof fn lemma_no_duplicate_distinct(ids: Seq<Seq<char>>, n: nat)
    requires
        n <= ids.len(),
        first_duplicate(ids, n) is None,
    ensures
        forall|i: int, j: int| 0 <= i < j < n ==> ids[i] != ids[j],
    decreases n,
{
    if n > 0 {
        lemma_no_duplicate_distinct(ids, (n - 1) as nat);
        assert forall|i: int, j: int| 0 <= i < j < n implies ids[i] != ids[j] by {
            if j == n - 1 {
                assert(ids.take(n - 1)[i] == ids[i]);
                if ids[i] == ids[j] {
                    assert(ids.take(n - 1).contains(ids[n - 1]));
                }
            }
        }
    }
}

/// A specification that resolves yields cells with pairwise distinct ids.
pub proof fn lemma_resolved_ids_distinct(spec: ExperimentSpec)
    requires
        resolve_error(spec) is None,
    ensures
        forall|i: int, j: int|
            0 <= i < j < spec_plan(spec).len() ==> #[trigger] plan_ids(
                spec.datasets@,
                spec.algorithms@,
                spec_plan(spec),
            )[i] != #[trigger] plan_ids(spec.datasets@, spec.algorithms@, spec_plan(spec))[j],
{
    let ids = plan_ids(spec.datasets@, spec.algorithms@, spec_plan(spec));
    lemma_no_duplicate_distinct(ids, ids.len());
}

/// Configurations of the first `n` sweep blocks, counted together.
pub open spec fn configs_per_dataset(sws: Seq<AlgorithmSweep>, n: nat) -> nat
    decreases n,
{
    if n == 0 {
        0
    } else {
        configs_per_dataset(sws, (n - 1) as nat) + sweep_configs(sws[n - 1]).len()
    }
}

proof fn lemma_dataset_plan_len(di: int, sws: Seq<AlgorithmSweep>, n: nat)
    requires
        n <= sws.len(),
    ensures
        dataset_plan(di, sws, n).len() == configs_per_dataset(sws, n),
    decreases n,
{
    if n > 0 {
        lemma_dataset_plan_len(di, sws, (n - 1) as nat);
    }
}

proof fn lemma_matrix_plan_len(ds: Seq<DatasetEntry>, sws: Seq<AlgorithmSweep>, n: nat)
    ensures
        matrix_plan(ds, sws, n).len() == n * configs_per_dataset(sws, sws.len()),
    decreases n,
{
    if n > 0 {
        let m = (n - 1) as nat;
        lemma_matrix_plan_len(ds, sws, m);
        lemma_dataset_plan_len(n - 1, sws, sws.len());
        let c = configs_per_dataset(sws, sws.len());
        assert(matrix_plan(ds, sws, n).len() == matrix_plan(ds, sws, m).len() + dataset_plan(
            n - 1,
            sws,
            sws.len(),
        ).len());
        assert(m * c + c == n * c) by (nonlinear_arith)
            requires
                n == m + 1,
        ;
    } else {
        let c = configs_per_dataset(sws, sws.len());
        assert(0 * c == 0);
    }
}

/// The matrix is the full Cartesian product: as many cells as datasets
/// times the configurations of all sweep blocks together.
pub proof fn lemma_matrix_size(spec: ExperimentSpec)
    ensures
        spec_plan(spec).len() == spec.datasets@.len() * configs_per_dataset(
            spec.algorithms@,
            spec.algorithms@.len(),
        ),
{
    lemma_matrix_plan_len(spec.datasets@, spec.algorithms@, spec.datasets@.len());
}

} // verus!
