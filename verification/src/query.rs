//! Query options and metric ordering for registry reads.
//!
//! Sorting is a query-time decision expressed as metric/direction pairs;
//! ties are broken by `run_key`, so every ordering is total.
use vstd::prelude::*;
use vstd::string::*;

use crate::text::{
    chars_of, find_first, first_index_of, is_white, owned, push_str, str_eq, trim, trim_end_len,
    trim_range, trim_start_len,
};

verus! {

/// Default location of the registry file, relative to the working directory.
pub const DEFAULT_RUN_DB: &'static str = ".lab/runs.sqlite";

/// Direction of a query-time sort key.
#[derive(Debug, Clone, Copy, PartialEq, Eq, Structural)]
pub enum SortDirection {
    Asc,
    Desc,
}

impl SortDirection {
    pub open spec fn spec_sql(self) -> Seq<char> {
        match self {
            SortDirection::Asc => "ASC"@,
            SortDirection::Desc => "DESC"@,
        }
    }

    pub open spec fn spec_name(self) -> Seq<char> {
        match self {
            SortDirection::Asc => "asc"@,
            SortDirection::Desc => "desc"@,
        }
    }

    /// `ASC` or `DESC`.
    pub fn as_sql(self) -> (s: &'static str)
        ensures
            s@ == self.spec_sql(),
    {
        match self {
            SortDirection::Asc => "ASC",
            SortDirection::Desc => "DESC",
        }
    }

    /// `asc` or `desc`.
    pub fn as_str(self) -> (s: &'static str)
        ensures
            s@ == self.spec_name(),
    {
        match self {
            SortDirection::Asc => "asc",
            SortDirection::Desc => "desc",
        }
    }
}

/// One metric/direction pair of a query-time ordering.
#[derive(Debug, Clone)]
pub struct SortKey {
    pub metric: String,
    pub direction: SortDirection,
}

/// Options of the best-runs query of one dataset.
#[derive(Debug, Clone)]
pub struct BestOpts {
    pub dataset_id: String,
    pub algorithm: Option<String>,
    pub sort: Vec<SortKey>,
    pub limit: Option<usize>,
}

/// Error for the composite score, which is never a stored column.
pub open spec fn composite_error() -> Seq<char> {
    "composite_rank_score is not a registry sort/filter metric; use `registry rank --weight ...` to compute a query-time score"@
}

/// The registry column of a metric name, or why there is none.
pub open spec fn spec_metric_col(m: Seq<char>) -> Result<Seq<char>, Seq<char>> {
    if m == "task_ratio"@ || m == "scheduled_task_ratio"@ {
        Ok("task_ratio"@)
    } else if m == "priority_ratio"@ || m == "scheduled_priority_ratio"@ {
        Ok("priority_ratio"@)
    } else if m == "priority_density"@ {
        Ok("priority_density"@)
    } else if m == "utilization"@ {
        Ok("utilization"@)
    } else if m == "fragmentation_index"@ {
        Ok("fragmentation_index"@)
    } else if m == "runtime_ms"@ || m == "scheduler_runtime_ms"@ {
        Ok("runtime_ms"@)
    } else if m == "requested_time_sec"@ {
        Ok("requested_time_sec"@)
    } else if m == "scheduled_time_sec"@ {
        Ok("scheduled_time_sec"@)
    } else if m == "scheduled_time_ratio"@ {
        Ok("scheduled_time_ratio"@)
    } else if m == "composite_score"@ || m == "composite_rank_score"@ {
        Err(composite_error())
    } else {
        Err("unsupported registry metric '"@ + m + "'"@)
    }
}

/// The registry column that stores `metric` (aliases included).
pub fn metric_col(metric: &str) -> (r: Result<&'static str, String>)
    ensures
        match spec_metric_col(metric@) {
            Ok(c) => r is Ok && r->Ok_0@ == c,
            Err(e) => r is Err && r->Err_0@ == e,
        },
{
    if str_eq(metric, "task_ratio") || str_eq(metric, "scheduled_task_ratio") {
        Ok("task_ratio")
    } else if str_eq(metric, "priority_ratio") || str_eq(metric, "scheduled_priority_ratio") {
        Ok("priority_ratio")
    } else if str_eq(metric, "priority_density") {
        Ok("priority_density")
    } else if str_eq(metric, "utilization") {
        Ok("utilization")
    } else if str_eq(metric, "fragmentation_index") {
        Ok("fragmentation_index")
    } else if str_eq(metric, "runtime_ms") || str_eq(metric, "scheduler_runtime_ms") {
        Ok("runtime_ms")
    } else if str_eq(metric, "requested_time_sec") {
        Ok("requested_time_sec")
    } else if str_eq(metric, "scheduled_time_sec") {
        Ok("scheduled_time_sec")
    } else if str_eq(metric, "scheduled_time_ratio") {
        Ok("scheduled_time_ratio")
    } else if str_eq(metric, "composite_score") || str_eq(metric, "composite_rank_score") {
        Err(
            owned(
                "composite_rank_score is not a registry sort/filter metric; use `registry rank --weight ...` to compute a query-time score",
            ),
        )
    } else {
        let mut msg = owned("unsupported registry metric '");
        push_str(&mut msg, metric);
        push_str(&mut msg, "'");
        proof {
            assert(msg@ =~= "unsupported registry metric '"@ + metric@ + "'"@);
        }
        Err(msg)
    }
}

/// Conventional objective direction of a column: ascending for
/// fragmentation and runtime, descending otherwise.
pub open spec fn direction_of_col(c: Seq<char>) -> SortDirection {
    if c == "fragmentation_index"@ || c == "runtime_ms"@ {
        SortDirection::Asc
    } else {
        SortDirection::Desc
    }
}

pub open spec fn spec_default_direction(m: Seq<char>) -> Result<SortDirection, Seq<char>> {
    match spec_metric_col(m) {
        Ok(c) => Ok(direction_of_col(c)),
        Err(e) => Err(e),
    }
}

/// The conventional direction of a metric.
pub fn default_metric_direction(metric: &str) -> (r: Result<SortDirection, String>)
    ensures
        match spec_default_direction(metric@) {
            Ok(d) => r == Ok::<SortDirection, String>(d),
            Err(e) => r is Err && r->Err_0@ == e,
        },
{
    let col = metric_col(metric)?;
    if str_eq(col, "fragmentation_index") || str_eq(col, "runtime_ms") {
        Ok(SortDirection::Asc)
    } else {
        Ok(SortDirection::Desc)
    }
}

/// The part before the first `:` and, when there is one, the part after it.
pub open spec fn split_colon(s: Seq<char>) -> (Seq<char>, Option<Seq<char>>) {
    match first_index_of(s, ':') {
        Some(i) => (s.take(i), Some(s.skip(i + 1))),
        None => (s, None),
    }
}

pub open spec fn invalid_direction_error(d: Seq<char>, input: Seq<char>) -> Seq<char> {
    "invalid sort direction '"@ + d + "' in '"@ + input + "', expected asc or desc"@
}

/// `metric:asc`, `metric:desc`, or `metric` alone with its conventional
/// direction; the metric must name a registry column.
pub open spec fn spec_parse_sort_key(input: Seq<char>) -> Result<
    (Seq<char>, SortDirection),
    Seq<char>,
> {
    let parts = split_colon(input);
    let m = trim(parts.0);
    if m.len() == 0 {
        Err("sort key metric cannot be empty"@)
    } else {
        let dir: Result<SortDirection, Seq<char>> = match parts.1 {
            Some(d) => {
                let d = trim(d);
                if d == "asc"@ {
                    Ok(SortDirection::Asc)
                } else if d == "desc"@ {
                    Ok(SortDirection::Desc)
                } else {
                    Err(invalid_direction_error(d, input))
                }
            },
            None => spec_default_direction(m),
        };
        match dir {
            Err(e) => Err(e),
            Ok(d) => match spec_metric_col(m) {
                Err(e) => Err(e),
                Ok(_) => Ok((m, d)),
            },
        }
    }
}

/// Parses a sort key.
pub fn parse_sort_key(input: &str) -> (r: Result<SortKey, String>)
    ensures
        match spec_parse_sort_key(input@) {
            Ok(p) => r is Ok && r->Ok_0.metric@ == p.0 && r->Ok_0.direction == p.1,
            Err(e) => r is Err && r->Err_0@ == e,
        },
{
    let v = chars_of(input);
    let colon = find_first(&v, ':');
    let ghost parts = split_colon(input@);
    let (metric, dir) = match colon {
        Some(i) => {
            let m = trim_range(&v, 0, i);
            let d = trim_range(&v, i + 1, v.len());
            proof {
                assert(v@.subrange(0, i as int) =~= input@.take(i as int));
                assert(v@.subrange(i + 1, v@.len() as int) =~= input@.skip(i + 1));
                assert(first_index_of(input@, ':') == Some(i as int));
                assert(m@ == trim(parts.0));
                assert(d@ == trim(parts.1->0));
            }
            (m, Some(d))
        },
        None => {
            let m = trim_range(&v, 0, v.len());
            proof {
                assert(v@.subrange(0, v@.len() as int) =~= input@);
                assert(first_index_of(input@, ':') is None);
                assert(m@ == trim(parts.0));
                assert(parts.1 is None);
            }
            (m, None)
        },
    };
    assert(metric@ == trim(parts.0));
    if metric.as_str().unicode_len() == 0 {
        return Err(owned("sort key metric cannot be empty"));
    }
    let direction = match dir {
        Some(d) => {
            if str_eq(d.as_str(), "asc") {
                SortDirection::Asc
            } else if str_eq(d.as_str(), "desc") {
                SortDirection::Desc
            } else {
                let mut msg = owned("invalid sort direction '");
                push_str(&mut msg, d.as_str());
                push_str(&mut msg, "' in '");
                push_str(&mut msg, input);
                push_str(&mut msg, "', expected asc or desc");
                proof {
                    assert(msg@ =~= invalid_direction_error(d@, input@));
                }
                return Err(msg);
            }
        },
        None => default_metric_direction(metric.as_str())?,
    };
    metric_col(metric.as_str())?;
    Ok(SortKey { metric, direction })
}

pub open spec fn key_view(k: SortKey) -> (Seq<char>, SortDirection) {
    (k.metric@, k.direction)
}

/// The ordering used when the caller gives no sort keys: scheduled
/// priority ratio, scheduled task ratio and priority density descending,
/// then runtime ascending.
pub open spec fn spec_default_sort_keys() -> Seq<(Seq<char>, SortDirection)> {
    seq![
        ("scheduled_priority_ratio"@, SortDirection::Desc),
        ("scheduled_task_ratio"@, SortDirection::Desc),
        ("priority_density"@, SortDirection::Desc),
        ("runtime_ms"@, SortDirection::Asc),
    ]
}

/// The default query-time ordering.
pub fn default_sort_keys() -> (v: Vec<SortKey>)
    ensures
        v@.map_values(|k: SortKey| key_view(k)) == spec_default_sort_keys(),
{
    let mut v: Vec<SortKey> = Vec::new();
    v.push(SortKey { metric: owned("scheduled_priority_ratio"), direction: SortDirection::Desc });
    v.push(SortKey { metric: owned("scheduled_task_ratio"), direction: SortDirection::Desc });
    v.push(SortKey { metric: owned("priority_density"), direction: SortDirection::Desc });
    v.push(SortKey { metric: owned("runtime_ms"), direction: SortDirection::Asc });
    proof {
        assert(v@.map_values(|k: SortKey| key_view(k)) =~= spec_default_sort_keys());
    }
    v
}

/// `<column> <ASC|DESC>` terms for the first `n` keys, each followed by
/// `, `; an unknown metric yields its error.
pub open spec fn order_terms(keys: Seq<(Seq<char>, SortDirection)>, n: nat) -> Result<
    Seq<char>,
    Seq<char>,
>
    decreases n,
{
    if n == 0 {
        Ok(Seq::empty())
    } else {
        match order_terms(keys, (n - 1) as nat) {
            Err(e) => Err(e),
            Ok(t) => match spec_metric_col(keys[n - 1].0) {
                Err(e) => Err(e),
                Ok(c) => Ok(t + c + " "@ + keys[n - 1].1.spec_sql() + ", "@),
            },
        }
    }
}

/// The `ORDER BY` expression: the keys in order, then `run_key ASC`.
pub open spec fn spec_sort_expr(keys: Seq<(Seq<char>, SortDirection)>) -> Result<
    Seq<char>,
    Seq<char>,
> {
    match order_terms(keys, keys.len()) {
        Err(e) => Err(e),
        Ok(t) => Ok(t + "run_key ASC"@),
    }
}

proof fn lemma_order_terms_err_stable(keys: Seq<(Seq<char>, SortDirection)>, n: nat, m: nat)
    requires
        n <= m,
        order_terms(keys, n) is Err,
    ensures
        order_terms(keys, m) == order_terms(keys, n),
    decreases m,
{
    if m > n {
        lemma_order_terms_err_stable(keys, n, (m - 1) as nat);
    }
}

/// The `ORDER BY` expression of `keys`, with `run_key` as final tie-breaker.
pub fn sort_expr(keys: &Vec<SortKey>) -> (r: Result<String, String>)
    ensures
        match spec_sort_expr(keys@.map_values(|k: SortKey| key_view(k))) {
            Ok(s) => r is Ok && r->Ok_0@ == s,
            Err(e) => r is Err && r->Err_0@ == e,
        },
{
    let ghost kv = keys@.map_values(|k: SortKey| key_view(k));
    let mut out = String::new();
    let mut i: usize = 0;
    while i < keys.len()
        invariant
            i <= keys.len(),
            kv == keys@.map_values(|k: SortKey| key_view(k)),
            order_terms(kv, i as nat) == Ok::<Seq<char>, Seq<char>>(out@),
        decreases keys.len() - i,
    {
        let col = match metric_col(keys[i].metric.as_str()) {
            Ok(c) => c,
            Err(e) => {
                proof {
                    assert(kv[i as int] == key_view(keys@[i as int]));
                    lemma_order_terms_err_stable(kv, (i + 1) as nat, kv.len());
                }
                return Err(e);
            },
        };
        let ghost before = out@;
        push_str(&mut out, col);
        push_str(&mut out, " ");
        push_str(&mut out, keys[i].direction.as_sql());
        push_str(&mut out, ", ");
        proof {
            assert(kv[i as int] == key_view(keys@[i as int]));
            assert(out@ =~= before + col@ + " "@ + kv[i as int].1.spec_sql() + ", "@);
        }
        i = i + 1;
    }
    push_str(&mut out, "run_key ASC");
    Ok(out)
}

/// The registry file: the override when given, else the default path.
pub fn registry_path(run_db: Option<&str>) -> (p: String)
    ensures
        p@ == match run_db {
            Some(x) => x@,
            None => DEFAULT_RUN_DB@,
        },
{
    match run_db {
        Some(x) => owned(x),
        None => owned(DEFAULT_RUN_DB),
    }
}

/// A name made of lowercase ASCII letters and `_`.
pub open spec fn plain_name(s: Seq<char>) -> bool {
    &&& s.len() > 0
    &&& forall|i: int| 0 <= i < s.len() ==> ('a' <= #[trigger] s[i] && s[i] <= 'z') || s[i] == '_'
}

proof fn lemma_metric_names_plain(m: Seq<char>)
    requires
        spec_metric_col(m) is Ok,
    ensures
        plain_name(m),
{
    reveal_strlit("task_ratio");
    reveal_strlit("scheduled_task_ratio");
    reveal_strlit("priority_ratio");
    reveal_strlit("scheduled_priority_ratio");
    reveal_strlit("priority_density");
    reveal_strlit("utilization");
    reveal_strlit("fragmentation_index");
    reveal_strlit("runtime_ms");
    reveal_strlit("scheduler_runtime_ms");
    reveal_strlit("requested_time_sec");
    reveal_strlit("scheduled_time_sec");
    reveal_strlit("scheduled_time_ratio");
}

proof fn lemma_plain_trim(s: Seq<char>)
    requires
        forall|i: int| 0 <= i < s.len() ==> ('a' <= #[trigger] s[i] && s[i] <= 'z') || s[i] == '_',
    ensures
        trim(s) == s,
{
    if s.len() > 0 {
        assert(!is_white(s[0]));
        assert(!is_white(s.last()));
    }
    assert(trim_start_len(s) == 0);
    assert(s.skip(0) =~= s);
    assert(trim_end_len(s) == 0);
    assert(s.take(s.len() as int) =~= s);
}

proof fn lemma_first_colon_after(a: Seq<char>, b: Seq<char>)
    requires
        forall|i: int| 0 <= i < a.len() ==> #[trigger] a[i] != ':',
    ensures
        first_index_of(a + ":"@ + b, ':') == Some(a.len() as int),
    decreases a.len(),
{
    reveal_strlit(":");
    if a.len() == 0 {
        assert((a + ":"@ + b)[0] == ':');
    } else {
        assert((a + ":"@ + b).drop_first() =~= a.drop_first() + ":"@ + b);
        assert(forall|i: int| 0 <= i < a.drop_first().len() ==> #[trigger] a.drop_first()[i] == a[i + 1]);
        lemma_first_colon_after(a.drop_first(), b);
        assert((a + ":"@ + b)[0] == a[0]);
    }
}

/// Each registry metric is stored in the column of its own name, except the
/// aliases `scheduled_task_ratio`, `scheduled_priority_ratio` and
/// `scheduler_runtime_ms`, stored in `task_ratio`, `priority_ratio` and
/// `runtime_ms`; the composite score is never a column.
pub proof fn lemma_metric_columns(m: Seq<char>)
    ensures
        spec_metric_col(m) is Ok && !(m == "scheduled_task_ratio"@ || m
            == "scheduled_priority_ratio"@ || m == "scheduler_runtime_ms"@) ==> spec_metric_col(
            m,
        )->Ok_0 == m,
        m == "scheduled_task_ratio"@ ==> spec_metric_col(m) == Ok::<Seq<char>, Seq<char>>(
            "task_ratio"@,
        ),
        m == "scheduled_priority_ratio"@ ==> spec_metric_col(m) == Ok::<Seq<char>, Seq<char>>(
            "priority_ratio"@,
        ),
        m == "scheduler_runtime_ms"@ ==> spec_metric_col(m) == Ok::<Seq<char>, Seq<char>>(
            "runtime_ms"@,
        ),
        m == "composite_score"@ || m == "composite_rank_score"@ ==> spec_metric_col(m) == Err::<
            Seq<char>,
            Seq<char>,
        >(composite_error()),
{
    reveal_strlit("task_ratio");
    reveal_strlit("scheduled_task_ratio");
    reveal_strlit("priority_ratio");
    reveal_strlit("scheduled_priority_ratio");
    reveal_strlit("priority_density");
    reveal_strlit("utilization");
    reveal_strlit("fragmentation_index");
    reveal_strlit("runtime_ms");
    reveal_strlit("scheduler_runtime_ms");
    reveal_strlit("requested_time_sec");
    reveal_strlit("scheduled_time_sec");
    reveal_strlit("scheduled_time_ratio");
    reveal_strlit("composite_score");
    reveal_strlit("composite_rank_score");
    assert("scheduled_task_ratio"@[0] == 's');
    assert("scheduled_priority_ratio"@[0] == 's');
    assert("scheduled_priority_ratio"@[10] == 'p');
    assert("scheduled_task_ratio"@[10] == 't');
    assert("task_ratio"@[0] == 't');
    assert("priority_ratio"@[0] == 'p');
    assert("priority_density"@[0] == 'p');
    assert("utilization"@[0] == 'u');
    assert("fragmentation_index"@[0] == 'f');
    assert("runtime_ms"@[0] == 'r');
    assert("scheduler_runtime_ms"@[0] == 's');
    assert("scheduler_runtime_ms"@[8] == 'r');
    assert("scheduled_task_ratio"@[8] == 'd');
    assert("requested_time_sec"@[0] == 'r');
    assert("scheduled_time_sec"@[0] == 's');
    assert("scheduled_time_ratio"@[0] == 's');
    assert("composite_score"@[0] == 'c');
    assert("composite_rank_score"@[0] == 'c');
}

proof fn lemma_no_colon(s: Seq<char>)
    requires
        forall|i: int| 0 <= i < s.len() ==> #[trigger] s[i] != ':',
    ensures
        first_index_of(s, ':') is None,
    decreases s.len(),
{
    if s.len() > 0 {
        assert(forall|i: int| 0 <= i < s.drop_first().len() ==> #[trigger] s.drop_first()[i] == s[i + 1]);
        lemma_no_colon(s.drop_first());
    }
}

/// A metric's conventional direction is ascending exactly when its registry
/// column is `fragmentation_index` or `runtime_ms` (lower is better there),
/// and descending for every other column.
pub proof fn lemma_default_direction(m: Seq<char>)
    requires
        spec_metric_col(m) is Ok,
    ensures
        spec_default_direction(m) is Ok,
        spec_default_direction(m)->Ok_0 == SortDirection::Asc <==> (spec_metric_col(m)->Ok_0
            == "fragmentation_index"@ || spec_metric_col(m)->Ok_0 == "runtime_ms"@),
        spec_default_direction(m)->Ok_0 == SortDirection::Desc <==> !(spec_metric_col(m)->Ok_0
            == "fragmentation_index"@ || spec_metric_col(m)->Ok_0 == "runtime_ms"@),
        spec_default_direction("fragmentation_index"@) == Ok::<SortDirection, Seq<char>>(
            SortDirection::Asc,
        ),
        spec_default_direction("runtime_ms"@) == Ok::<SortDirection, Seq<char>>(
            SortDirection::Asc,
        ),
{
    reveal_strlit("task_ratio");
    reveal_strlit("scheduled_task_ratio");
    reveal_strlit("priority_ratio");
    reveal_strlit("scheduled_priority_ratio");
    reveal_strlit("priority_density");
    reveal_strlit("utilization");
    reveal_strlit("fragmentation_index");
    reveal_strlit("runtime_ms");
    reveal_strlit("scheduler_runtime_ms");
    assert("task_ratio"@[0] == 't');
    assert("scheduled_task_ratio"@[0] == 's');
    assert("priority_ratio"@[0] == 'p');
    assert("scheduled_priority_ratio"@[0] == 's');
    assert("priority_density"@[0] == 'p');
    assert("utilization"@[0] == 'u');
    assert("fragmentation_index"@[0] == 'f');
    assert("runtime_ms"@[0] == 'r');
}

/// A sort key written without a direction (no `:`) sorts its metric in the
/// conventional direction: ascending exactly when the metric's registry
/// column is `fragmentation_index` or `runtime_ms`.
pub proof fn lemma_bare_sort_key_direction(input: Seq<char>)
    requires
        forall|i: int| 0 <= i < input.len() ==> #[trigger] input[i] != ':',
        spec_parse_sort_key(input) is Ok,
    ensures
        spec_metric_col(spec_parse_sort_key(input)->Ok_0.0) is Ok,
        spec_parse_sort_key(input)->Ok_0.1 == SortDirection::Asc <==> (spec_metric_col(
            spec_parse_sort_key(input)->Ok_0.0,
        )->Ok_0 == "fragmentation_index"@ || spec_metric_col(spec_parse_sort_key(input)->Ok_0.0)->Ok_0
            == "runtime_ms"@),
{
    lemma_no_colon(input);
    lemma_default_direction(trim(input));
}

/// A sort key written as a metric and a direction, `metric:dir`, parses back
/// to that direction and to the metric with surrounding whitespace trimmed,
/// whenever the metric text holds no `:` and names a registry column.
pub proof fn lemma_sort_key_round_trip(m: Seq<char>, d: SortDirection)
    requires
        forall|i: int| 0 <= i < m.len() ==> #[trigger] m[i] != ':',
        spec_metric_col(trim(m)) is Ok,
    ensures
        spec_parse_sort_key(m + ":"@ + d.spec_name()) == Ok::<(Seq<char>, SortDirection), Seq<char>>(
            (trim(m), d),
        ),
{
    reveal_strlit(":");
    reveal_strlit("asc");
    reveal_strlit("desc");
    lemma_metric_names_plain(trim(m));
    let input = m + ":"@ + d.spec_name();
    lemma_first_colon_after(m, d.spec_name());
    assert(input.take(m.len() as int) =~= m);
    assert(input.skip(m.len() as int + 1) =~= d.spec_name());
    lemma_plain_trim(d.spec_name());
}

} // verus!
