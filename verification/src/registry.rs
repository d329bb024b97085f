//! Registry rows and the query text of registry reads.
//!
//! The registry keeps one row per run key and one deduplicated schedule
//! body per schedule hash. The SQL text of the filtered listing and of the
//! best-runs query is built here; parameters are bound by position, in the
//! order of the conditions.
use vstd::prelude::*;
use vstd::string::*;

use crate::query::{
    default_sort_keys, key_view, metric_col, sort_expr, spec_default_sort_keys, spec_metric_col,
    spec_sort_expr, BestOpts, SortDirection, SortKey,
};
use crate::text::{dec, owned, push_decimal, push_str, str_eq};

verus! {

/// A registry row as query helpers return it.
#[derive(Debug, Clone)]
pub struct RunRow {
    pub run_key: String,
    pub dataset_id: String,
    pub dataset_path: String,
    pub algorithm: String,
    pub config_slug: String,
    pub identity_json: String,
    pub metrics_json: String,
    /// Run-specific schedule metadata, as JSON.
    pub metadata_json: Option<String>,
    /// Hash of the shared schedule body this run references.
    pub schedule_hash: Option<String>,
    /// The shared schedule body, when the referenced row exists.
    pub schedule_json: Option<String>,
    pub created_at: String,
    pub last_seen_at: String,
    pub source_cell_id: Option<String>,
}

/// Filters of the run listing. A metric bound is bound as a query parameter
/// by the caller; here only its presence matters.
#[derive(Debug, Clone)]
pub struct ListFilter {
    pub dataset: Option<String>,
    pub algorithm: Option<String>,
    pub metric: Option<String>,
    pub has_min: bool,
    pub has_max: bool,
    pub sort: Vec<SortKey>,
    pub limit: Option<usize>,
}

/// Selected columns of every row query, up to the filter clause.
pub const ROW_SELECT: &'static str = "SELECT run_key, dataset_id, dataset_path, algorithm, config_slug,\n                    identity_json, metrics_json, r.metadata_json, r.schedule_hash, s.schedule_json,\n                    r.created_at, r.last_seen_at, r.source_cell_id\n               FROM runs r\n               LEFT JOIN schedules s ON r.schedule_hash = s.schedule_hash\n               ";

/// `parts` separated by `sep`.
pub open spec fn join(parts: Seq<Seq<char>>, sep: Seq<char>) -> Seq<char>
    decreases parts.len(),
{
    if parts.len() == 0 {
        Seq::empty()
    } else if parts.len() == 1 {
        parts[0]
    } else {
        join(parts.drop_last(), sep) + sep + parts.last()
    }
}

/// A condition text ending in the placeholder `?n`.
pub open spec fn placeholder(prefix: Seq<char>, n: nat) -> Seq<char> {
    prefix + "?"@ + dec(n)
}

/// The conditions of a listing, with consecutive placeholders from `?1`:
/// dataset, algorithm, lower metric bound, upper metric bound, each only
/// when given. A bound on a metric without a registry column is an error.
pub open spec fn list_conditions(
    dataset: bool,
    algorithm: bool,
    metric: Option<Seq<char>>,
    has_min: bool,
    has_max: bool,
) -> Result<Seq<Seq<char>>, Seq<char>> {
    let c1: Seq<Seq<char>> = if dataset {
        seq![placeholder("r.dataset_id = "@, 1)]
    } else {
        Seq::empty()
    };
    let c2 = if algorithm {
        c1.push(placeholder("r.algorithm = "@, c1.len() + 1))
    } else {
        c1
    };
    match metric {
        None => Ok(c2),
        Some(m) => if !has_min && !has_max {
            Ok(c2)
        } else {
            match spec_metric_col(m) {
                Err(e) => Err(e),
                Ok(col) => {
                    let c3 = if has_min {
                        c2.push(placeholder(col + " >= "@, c2.len() + 1))
                    } else {
                        c2
                    };
                    let c4 = if has_max {
                        c3.push(placeholder(col + " <= "@, c3.len() + 1))
                    } else {
                        c3
                    };
                    Ok(c4)
                },
            }
        },
    }
}

pub open spec fn where_clause(conds: Seq<Seq<char>>) -> Seq<char> {
    if conds.len() == 0 {
        Seq::empty()
    } else {
        "WHERE "@ + join(conds, " AND "@)
    }
}

pub open spec fn row_query(where_text: Seq<char>, order: Seq<char>, limit: nat) -> Seq<char> {
    ROW_SELECT@ + where_text + " ORDER BY "@ + order + " LIMIT "@ + dec(limit)
}

pub open spec fn keys_view(keys: Seq<SortKey>) -> Seq<(Seq<char>, SortDirection)> {
    keys.map_values(|k: SortKey| key_view(k))
}

/// The given sort keys, or the default ordering when none are given.
pub open spec fn effective_keys(keys: Seq<SortKey>) -> Seq<(Seq<char>, SortDirection)> {
    if keys.len() == 0 {
        spec_default_sort_keys()
    } else {
        keys_view(keys)
    }
}

pub open spec fn opt_seq(o: Option<String>) -> Option<Seq<char>> {
    match o {
        Some(s) => Some(s@),
        None => None,
    }
}

/// The SQL of a run listing: conditions first, then the ordering, then the
/// limit (100 when not given).
pub open spec fn spec_list_sql(f: ListFilter) -> Result<Seq<char>, Seq<char>> {
    match list_conditions(f.dataset is Some, f.algorithm is Some, opt_seq(f.metric), f.has_min, f.has_max) {
        Err(e) => Err(e),
        Ok(conds) => match spec_sort_expr(effective_keys(f.sort@)) {
            Err(e) => Err(e),
            Ok(order) => Ok(
                row_query(
                    where_clause(conds),
                    order,
                    match f.limit {
                        Some(l) => l as nat,
                        None => 100,
                    },
                ),
            ),
        },
    }
}

fn push_placeholder(conds: &mut Vec<String>, prefix: &str)
    requires
        old(conds).len() < u64::MAX,
    ensures
        final(conds)@.len() == old(conds)@.len() + 1,
        final(conds)@.map_values(|s: String| s@) == old(conds)@.map_values(|s: String| s@).push(
            placeholder(prefix@, (old(conds).len() + 1) as nat),
        ),
{
    let mut c = owned(prefix);
    push_str(&mut c, "?");
    push_decimal(&mut c, (conds.len() as u64) + 1);
    conds.push(c);
    proof {
        assert(final(conds)@.map_values(|s: String| s@) =~= old(conds)@.map_values(|s: String| s@).push(
            placeholder(prefix@, (old(conds).len() + 1) as nat),
        ));
    }
}

fn join_strings(parts: &Vec<String>, sep: &str) -> (s: String)
    ensures
        s@ == join(parts@.map_values(|p: String| p@), sep@),
{
    let ghost pv = parts@.map_values(|p: String| p@);
    let mut s = String::new();
    let mut i: usize = 0;
    while i < parts.len()
        invariant
            i <= parts.len(),
            pv == parts@.map_values(|p: String| p@),
            s@ == join(pv.take(i as int), sep@),
        decreases parts.len() - i,
    {
        if i > 0 {
            push_str(&mut s, sep);
        }
        push_str(&mut s, parts[i].as_str());
        proof {
            assert(pv.take(i + 1).drop_last() =~= pv.take(i as int));
            if i == 0 {
                assert(s@ =~= join(pv.take(1), sep@));
            }
        }
        i = i + 1;
    }
    proof {
        assert(pv.take(parts@.len() as int) =~= pv);
    }
    s
}

fn sort_or_default(keys: &Vec<SortKey>) -> (r: Vec<SortKey>)
    ensures
        keys_view(r@) == effective_keys(keys@),
{
    if keys.len() == 0 {
        default_sort_keys()
    } else {
        let mut r: Vec<SortKey> = Vec::new();
        let mut i: usize = 0;
        while i < keys.len()
            invariant
                i <= keys.len(),
                r@.len() == i,
                forall|j: int| 0 <= j < i ==> #[trigger] key_view(r@[j]) == key_view(keys@[j]),
            decreases keys.len() - i,
        {
            r.push(SortKey { metric: keys[i].metric.clone(), direction: keys[i].direction });
            i = i + 1;
        }
        proof {
            assert(keys_view(r@) =~= keys_view(keys@));
        }
        r
    }
}

fn push_row_query(out: &mut String, order: &str, limit: usize)
    ensures
        final(out)@ == old(out)@ + " ORDER BY "@ + order@ + " LIMIT "@ + dec(limit as nat),
{
    push_str(out, " ORDER BY ");
    push_str(out, order);
    push_str(out, " LIMIT ");
    push_decimal(out, limit as u64);
    proof {
        assert(final(out)@ =~= old(out)@ + " ORDER BY "@ + order@ + " LIMIT "@ + dec(limit as nat));
    }
}

/// The SQL text of a filtered run listing.
pub fn list_sql(f: &ListFilter) -> (r: Result<String, String>)
    ensures
        match spec_list_sql(*f) {
            Ok(s) => r is Ok && r->Ok_0@ == s,
            Err(e) => r is Err && r->Err_0@ == e,
        },
{
    let mut conds: Vec<String> = Vec::new();
    if f.dataset.is_some() {
        push_placeholder(&mut conds, "r.dataset_id = ");
    }
    if f.algorithm.is_some() {
        push_placeholder(&mut conds, "r.algorithm = ");
    }
    let ghost c2 = conds@.map_values(|s: String| s@);
    assert(c2 == (if f.algorithm is Some {
        (if f.dataset is Some {
            seq![placeholder("r.dataset_id = "@, 1)]
        } else {
            Seq::<Seq<char>>::empty()
        }).push(placeholder("r.algorithm = "@, conds@.len() as nat))
    } else {
        if f.dataset is Some {
            seq![placeholder("r.dataset_id = "@, 1)]
        } else {
            Seq::<Seq<char>>::empty()
        }
    }));
    if let Some(m) = &f.metric {
        if f.has_min || f.has_max {
            let col = match metric_col(m.as_str()) {
                Ok(c) => c,
                Err(e) => {
                    return Err(e);
                },
            };
            if f.has_min {
                let mut p = owned(col);
                push_str(&mut p, " >= ");
                push_placeholder(&mut conds, p.as_str());
            }
            if f.has_max {
                let mut p = owned(col);
                push_str(&mut p, " <= ");
                push_placeholder(&mut conds, p.as_str());
            }
        }
    }
    let ghost cv = conds@.map_values(|s: String| s@);
    assert(list_conditions(
        f.dataset is Some,
        f.algorithm is Some,
        opt_seq(f.metric),
        f.has_min,
        f.has_max,
    ) == Ok::<Seq<Seq<char>>, Seq<char>>(cv));
    let mut sql = owned(ROW_SELECT);
    if conds.len() > 0 {
        push_str(&mut sql, "WHERE ");
        let j = join_strings(&conds, " AND ");
        push_str(&mut sql, j.as_str());
    }
    let keys = sort_or_default(&f.sort);
    let order = match sort_expr(&keys) {
        Ok(o) => o,
        Err(e) => {
            return Err(e);
        },
    };
    let limit = match f.limit {
        Some(l) => l,
        None => 100,
    };
    push_row_query(&mut sql, order.as_str(), limit);
    proof {
        assert(sql@ =~= row_query(where_clause(cv), order@, limit as nat));
    }
    Ok(sql)
}

/// The SQL of the best runs of a dataset: dataset condition `?1`,
/// algorithm condition `?2` when given; limit 10 when not given.
pub open spec fn spec_best_sql(b: BestOpts) -> Result<Seq<char>, Seq<char>> {
    match spec_sort_expr(effective_keys(b.sort@)) {
        Err(e) => Err(e),
        Ok(order) => Ok(
            row_query(
                if b.algorithm is Some {
                    "WHERE r.dataset_id = ?1 AND r.algorithm = ?2"@
                } else {
                    "WHERE r.dataset_id = ?1"@
                },
                order,
                match b.limit {
                    Some(l) => l as nat,
                    None => 10,
                },
            ),
        ),
    }
}

/// The SQL text of the best-runs query.
pub fn best_sql(b: &BestOpts) -> (r: Result<String, String>)
    ensures
        match spec_best_sql(*b) {
            Ok(s) => r is Ok && r->Ok_0@ == s,
            Err(e) => r is Err && r->Err_0@ == e,
        },
{
    let keys = sort_or_default(&b.sort);
    let order = match sort_expr(&keys) {
        Ok(o) => o,
        Err(e) => {
            return Err(e);
        },
    };
    let limit = match b.limit {
        Some(l) => l,
        None => 10,
    };
    let mut sql = owned(ROW_SELECT);
    if b.algorithm.is_some() {
        push_str(&mut sql, "WHERE r.dataset_id = ?1 AND r.algorithm = ?2");
    } else {
        push_str(&mut sql, "WHERE r.dataset_id = ?1");
    }
    push_row_query(&mut sql, order.as_str(), limit);
    Ok(sql)
}

/// The query of the run keys that start with a prefix, bound to the pattern
/// of `prefix_pattern`; three rows are enough to tell one match from several.
pub const PREFIX_QUERY_SQL: &'static str = "SELECT run_key FROM runs WHERE run_key GLOB ?1 LIMIT 3";

/// A character of the prefix as a `GLOB` pattern that matches only it: the
/// wildcards `*`, `?` and `[` are put in brackets. `GLOB` compares case by
/// case.
pub open spec fn glob_literal(c: char) -> Seq<char> {
    if c == '*' || c == '?' || c == '[' {
        seq!['[', c, ']']
    } else {
        seq![c]
    }
}

pub open spec fn glob_literals(s: Seq<char>) -> Seq<char>
    decreases s.len(),
{
    if s.len() == 0 {
        Seq::empty()
    } else {
        glob_literals(s.drop_last()) + glob_literal(s.last())
    }
}

/// The `GLOB` pattern that matches exactly the run keys starting with
/// `prefix`: the prefix taken literally, then `*`.
pub fn prefix_pattern(prefix: &str) -> (p: String)
    ensures
        p@ == glob_literals(prefix@) + "*"@,
{
    let n = prefix.unicode_len();
    let mut p = String::new();
    let mut i: usize = 0;
    while i < n
        invariant
            i <= n,
            n == prefix@.len(),
            p@ == glob_literals(prefix@.take(i as int)),
        decreases n - i,
    {
        let c = prefix.get_char(i);
        if c == '*' || c == '?' || c == '[' {
            p.push('[');
            p.push(c);
            p.push(']');
        } else {
            p.push(c);
        }
        proof {
            assert(prefix@.take(i + 1).drop_last() =~= prefix@.take(i as int));
        }
        i = i + 1;
        proof {
            assert(p@ =~= glob_literals(prefix@.take(i as int)));
        }
    }
    proof {
        assert(prefix@.take(n as int) =~= prefix@);
    }
    push_str(&mut p, "*");
    p
}

pub open spec fn spec_prefix_outcome(prefix: Seq<char>, keys: Seq<Seq<char>>) -> Result<
    Seq<char>,
    Seq<char>,
> {
    if keys.len() == 0 {
        Err("no run found matching prefix '"@ + prefix + "'"@)
    } else if keys.len() == 1 {
        Ok(keys[0])
    } else {
        Err("ambiguous prefix '"@ + prefix + "' matches "@ + dec(keys.len()) + " runs"@)
    }
}

/// The full run key for a prefix, given the keys that the prefix query
/// returned: exactly one match resolves, none or several are errors.
pub fn resolve_prefix_outcome(prefix: &str, keys: &Vec<String>) -> (r: Result<String, String>)
    ensures
        match spec_prefix_outcome(prefix@, keys@.map_values(|k: String| k@)) {
            Ok(k) => r is Ok && r->Ok_0@ == k,
            Err(e) => r is Err && r->Err_0@ == e,
        },
{
    if keys.len() == 0 {
        let mut m = owned("no run found matching prefix '");
        push_str(&mut m, prefix);
        push_str(&mut m, "'");
        Err(m)
    } else if keys.len() == 1 {
        Ok(keys[0].clone())
    } else {
        let mut m = owned("ambiguous prefix '");
        push_str(&mut m, prefix);
        push_str(&mut m, "' matches ");
        push_decimal(&mut m, keys.len() as u64);
        push_str(&mut m, " runs");
        proof {
            assert(m@ =~= "ambiguous prefix '"@ + prefix@ + "' matches "@ + dec(keys@.len())
                + " runs"@);
        }
        Err(m)
    }
}

/// What storing a schedule body does, given the dataset hash already stored
/// under its schedule hash (if any).
#[derive(Debug, Clone, Copy, PartialEq, Eq)]
pub enum ScheduleInsert {
    /// No body is stored under the hash: insert it.
    Insert,
    /// The same dataset's body is stored: keep the first one.
    Keep,
}

pub open spec fn spec_schedule_insert(
    existing: Option<Seq<char>>,
    schedule_hash: Seq<char>,
    dataset_hash: Seq<char>,
) -> Result<ScheduleInsert, Seq<char>> {
    match existing {
        None => Ok(ScheduleInsert::Insert),
        Some(e) => if e == dataset_hash {
            Ok(ScheduleInsert::Keep)
        } else {
            Err("schedule hash collision: "@ + schedule_hash + " already stored for dataset "@ + e
                + " but a run reported dataset "@ + dataset_hash)
        },
    }
}

/// Decides how a schedule body is stored. Stored bodies are never
/// overwritten; a hash already stored for another dataset is a collision.
pub fn schedule_insert_action(
    existing_dataset_hash: Option<&str>,
    schedule_hash: &str,
    dataset_hash: &str,
) -> (r: Result<ScheduleInsert, String>)
    ensures
        match spec_schedule_insert(
            match existing_dataset_hash {
                Some(e) => Some(e@),
                None => None,
            },
            schedule_hash@,
            dataset_hash@,
        ) {
            Ok(a) => r == Ok::<ScheduleInsert, String>(a),
            Err(e) => r is Err && r->Err_0@ == e,
        },
        existing_dataset_hash is Some ==> r != Ok::<ScheduleInsert, String>(ScheduleInsert::Insert),
{
    match existing_dataset_hash {
        None => Ok(ScheduleInsert::Insert),
        Some(e) => if str_eq(e, dataset_hash) {
            Ok(ScheduleInsert::Keep)
        } else {
            let mut m = owned("schedule hash collision: ");
            push_str(&mut m, schedule_hash);
            push_str(&mut m, " already stored for dataset ");
            push_str(&mut m, e);
            push_str(&mut m, " but a run reported dataset ");
            push_str(&mut m, dataset_hash);
            Err(m)
        },
    }
}

} // verus!
