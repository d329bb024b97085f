//! Metrics of query-time scores and Pareto fronts: which metric names are
//! accepted, where each is read in a run's metrics JSON, and how objective
//! and weight arguments are parsed. The arithmetic on metric values is the
//! caller's.
use vstd::prelude::*;
use vstd::string::*;

use crate::text::{chars_of, find_first, first_index_of, owned, push_str, str_eq, trim, trim_range};

verus! {

/// Error for the composite score, which is not a metric of its own.
pub open spec fn composite_score_error() -> Seq<char> {
    "composite_rank_score is persisted only for backward-compatible schedule metrics; define query-time weights with `registry rank` instead"@
}

/// Where a metric is read in a metrics JSON object: a top-level field, or
/// a field of a nested object.
#[derive(Debug, Clone, Copy, PartialEq, Eq)]
pub struct MetricField {
    pub parent: Option<&'static str>,
    pub field: &'static str,
}

pub open spec fn field_view(f: MetricField) -> (Option<Seq<char>>, Seq<char>) {
    (
        match f.parent {
            Some(p) => Some(p@),
            None => None,
        },
        f.field@,
    )
}

/// The metrics JSON field of a score metric; aliases read the same field.
pub open spec fn spec_metric_field(m: Seq<char>) -> Result<(Option<Seq<char>>, Seq<char>), Seq<char>> {
    if m == "task_ratio"@ || m == "scheduled_task_ratio"@ {
        Ok((None, "scheduled_task_ratio"@))
    } else if m == "scheduled_task_count"@ {
        Ok((None, "scheduled_task_count"@))
    } else if m == "scheduled_priority_sum"@ {
        Ok((None, "scheduled_priority_sum"@))
    } else if m == "priority_ratio"@ || m == "scheduled_priority_ratio"@ {
        Ok((None, "scheduled_priority_ratio"@))
    } else if m == "priority_density"@ {
        Ok((None, "priority_density"@))
    } else if m == "scheduled_time_sec"@ {
        Ok((None, "scheduled_time_sec"@))
    } else if m == "requested_time_sec"@ {
        Ok((None, "requested_time_sec"@))
    } else if m == "scheduled_time_ratio"@ {
        Ok((None, "scheduled_time_ratio"@))
    } else if m == "utilization"@ {
        Ok((None, "utilization"@))
    } else if m == "fragmentation_index"@ {
        Ok((Some("fragmentation"@), "fragmentation_index"@))
    } else if m == "runtime_ms"@ || m == "scheduler_runtime_ms"@ {
        Ok((None, "scheduler_runtime_ms"@))
    } else if m == "composite_score"@ || m == "composite_rank_score"@ {
        Err(composite_score_error())
    } else {
        Err("unsupported metric '"@ + m + "'"@)
    }
}

fn top(field: &'static str) -> (f: MetricField)
    ensures
        field_view(f) == (None::<Seq<char>>, field@),
{
    MetricField { parent: None, field }
}

/// The metrics JSON field read for a score metric.
pub fn metric_field(metric: &str) -> (r: Result<MetricField, String>)
    ensures
        match spec_metric_field(metric@) {
            Ok(v) => r is Ok && field_view(r->Ok_0) == v,
            Err(e) => r is Err && r->Err_0@ == e,
        },
{
    if str_eq(metric, "task_ratio") || str_eq(metric, "scheduled_task_ratio") {
        Ok(top("scheduled_task_ratio"))
    } else if str_eq(metric, "scheduled_task_count") {
        Ok(top("scheduled_task_count"))
    } else if str_eq(metric, "scheduled_priority_sum") {
        Ok(top("scheduled_priority_sum"))
    } else if str_eq(metric, "priority_ratio") || str_eq(metric, "scheduled_priority_ratio") {
        Ok(top("scheduled_priority_ratio"))
    } else if str_eq(metric, "priority_density") {
        Ok(top("priority_density"))
    } else if str_eq(metric, "scheduled_time_sec") {
        Ok(top("scheduled_time_sec"))
    } else if str_eq(metric, "requested_time_sec") {
        Ok(top("requested_time_sec"))
    } else if str_eq(metric, "scheduled_time_ratio") {
        Ok(top("scheduled_time_ratio"))
    } else if str_eq(metric, "utilization") {
        Ok(top("utilization"))
    } else if str_eq(metric, "fragmentation_index") {
        Ok(MetricField { parent: Some("fragmentation"), field: "fragmentation_index" })
    } else if str_eq(metric, "runtime_ms") || str_eq(metric, "scheduler_runtime_ms") {
        Ok(top("scheduler_runtime_ms"))
    } else if str_eq(metric, "composite_score") || str_eq(metric, "composite_rank_score") {
        Err(
            owned(
                "composite_rank_score is persisted only for backward-compatible schedule metrics; define query-time weights with `registry rank` instead",
            ),
        )
    } else {
        let mut m = owned("unsupported metric '");
        push_str(&mut m, metric);
        push_str(&mut m, "'");
        Err(m)
    }
}

/// Objectives of a Pareto front: each maximized metric, then each
/// minimized one, in argument order; the first unacceptable metric is the
/// error. With no metric given, the default policy: priority ratio, task
/// ratio and priority density maximized, runtime minimized.
pub open spec fn spec_objectives(maximize: Seq<Seq<char>>, minimize: Seq<Seq<char>>) -> Result<
    Seq<(Seq<char>, bool)>,
    Seq<char>,
> {
    if maximize.len() == 0 && minimize.len() == 0 {
        Ok(
            seq![
                ("scheduled_priority_ratio"@, true),
                ("scheduled_task_ratio"@, true),
                ("priority_density"@, true),
                ("runtime_ms"@, false),
            ],
        )
    } else {
        let all = maximize + minimize;
        match first_bad_metric(all, all.len()) {
            Some(k) => Err(spec_metric_field(all[k])->Err_0),
            None => Ok(
                maximize.map_values(|m: Seq<char>| (m, true)) + minimize.map_values(
                    |m: Seq<char>| (m, false),
                ),
            ),
        }
    }
}

/// Index of the first of the first `n` metrics that is not accepted.
pub open spec fn first_bad_metric(ms: Seq<Seq<char>>, n: nat) -> Option<int>
    decreases n,
{
    if n == 0 {
        None
    } else {
        match first_bad_metric(ms, (n - 1) as nat) {
            Some(k) => Some(k),
            None => if spec_metric_field(ms[n - 1]) is Err {
                Some(n - 1)
            } else {
                None
            },
        }
    }
}

proof fn lemma_first_bad_metric_stays(ms: Seq<Seq<char>>, n: nat, m: nat)
    requires
        n <= m <= ms.len(),
        first_bad_metric(ms, n) is Some,
    ensures
        first_bad_metric(ms, m) == first_bad_metric(ms, n),
    decreases m - n,
{
    if m > n {
        lemma_first_bad_metric_stays(ms, n, (m - 1) as nat);
    }
}

pub open spec fn objectives_view(v: Seq<(String, bool)>) -> Seq<(Seq<char>, bool)> {
    v.map_values(|o: (String, bool)| (o.0@, o.1))
}

/// Parses the objectives of a Pareto query.
pub fn parse_objectives(maximize: &Vec<String>, minimize: &Vec<String>) -> (r: Result<
    Vec<(String, bool)>,
    String,
>)
    ensures
        match spec_objectives(
            maximize@.map_values(|s: String| s@),
            minimize@.map_values(|s: String| s@),
        ) {
            Ok(v) => r is Ok && objectives_view(r->Ok_0@) == v,
            Err(e) => r is Err && r->Err_0@ == e,
        },
{
    let ghost mx = maximize@.map_values(|s: String| s@);
    let ghost mn = minimize@.map_values(|s: String| s@);
    let ghost all = mx + mn;
    let mut out: Vec<(String, bool)> = Vec::new();
    if maximize.len() == 0 && minimize.len() == 0 {
        out.push((owned("scheduled_priority_ratio"), true));
        out.push((owned("scheduled_task_ratio"), true));
        out.push((owned("priority_density"), true));
        out.push((owned("runtime_ms"), false));
        proof {
            assert(objectives_view(out@) =~= seq![
                ("scheduled_priority_ratio"@, true),
                ("scheduled_task_ratio"@, true),
                ("priority_density"@, true),
                ("runtime_ms"@, false),
            ]);
        }
        return Ok(out);
    }
    let mut i: usize = 0;
    while i < maximize.len()
        invariant
            i <= maximize.len(),
            mx == maximize@.map_values(|s: String| s@),
            mn == minimize@.map_values(|s: String| s@),
            all == mx + mn,
            first_bad_metric(all, i as nat) is None,
            objectives_view(out@) == mx.take(i as int).map_values(|m: Seq<char>| (m, true)),
        decreases maximize.len() - i,
    {
        proof {
            assert(all[i as int] == maximize@[i as int]@);
        }
        match metric_field(maximize[i].as_str()) {
            Err(e) => {
                proof {
                    lemma_first_bad_metric_stays(all, (i + 1) as nat, all.len());
                }
                return Err(e);
            },
            Ok(_) => {},
        }
        let ghost before = out@;
        let name = maximize[i].clone();
        assert(name@ == mx[i as int]);
        out.push((name, true));
        proof {
            assert(out@ == before.push((name, true)));
            assert(objectives_view(out@) =~= objectives_view(before).push((mx[i as int], true)));
            assert(objectives_view(out@) =~= mx.take(i + 1).map_values(|m: Seq<char>| (m, true)));
        }
        i = i + 1;
    }
    proof {
        assert(mx.take(mx.len() as int) =~= mx);
    }
    let mut j: usize = 0;
    while j < minimize.len()
        invariant
            j <= minimize.len(),
            i == maximize.len(),
            mx == maximize@.map_values(|s: String| s@),
            mn == minimize@.map_values(|s: String| s@),
            all == mx + mn,
            first_bad_metric(all, (i + j) as nat) is None,
            objectives_view(out@) == mx.map_values(|m: Seq<char>| (m, true)) + mn.take(
                j as int,
            ).map_values(|m: Seq<char>| (m, false)),
        decreases minimize.len() - j,
    {
        proof {
            assert(all[i + j] == minimize@[j as int]@);
        }
        match metric_field(minimize[j].as_str()) {
            Err(e) => {
                proof {
                    lemma_first_bad_metric_stays(all, (i + j + 1) as nat, all.len());
                }
                return Err(e);
            },
            Ok(_) => {},
        }
        let ghost before = out@;
        let name = minimize[j].clone();
        assert(name@ == mn[j as int]);
        out.push((name, false));
        proof {
            assert(out@ == before.push((name, false)));
            assert(objectives_view(out@) =~= objectives_view(before).push((mn[j as int], false)));
            assert(objectives_view(out@) =~= mx.map_values(|m: Seq<char>| (m, true)) + mn.take(
                j + 1,
            ).map_values(|m: Seq<char>| (m, false)));
        }
        j = j + 1;
    }
    proof {
        assert(mn.take(mn.len() as int) =~= mn);
        assert(all.len() == i + j);
    }
    Ok(out)
}

/// A weight argument `metric=value`, split at the first `=`: the trimmed
/// metric (which must not be empty) and the trimmed value text.
pub open spec fn spec_split_weight(entry: Seq<char>) -> Result<(Seq<char>, Seq<char>), Seq<char>> {
    match first_index_of(entry, '=') {
        None => Err("invalid weight '"@ + entry + "', expected metric=value"@),
        Some(i) => {
            let m = trim(entry.take(i));
            if m.len() == 0 {
                Err("invalid weight '"@ + entry + "', metric cannot be empty"@)
            } else {
                Ok((m, trim(entry.skip(i + 1))))
            }
        },
    }
}

pub fn split_weight(entry: &str) -> (r: Result<(String, String), String>)
    ensures
        match spec_split_weight(entry@) {
            Ok(p) => r is Ok && r->Ok_0.0@ == p.0 && r->Ok_0.1@ == p.1,
            Err(e) => r is Err && r->Err_0@ == e,
        },
{
    let v = chars_of(entry);
    match find_first(&v, '=') {
        None => {
            let mut m = owned("invalid weight '");
            push_str(&mut m, entry);
            push_str(&mut m, "', expected metric=value");
            Err(m)
        },
        Some(i) => {
            let metric = trim_range(&v, 0, i);
            proof {
                assert(v@.subrange(0, i as int) =~= entry@.take(i as int));
            }
            if metric.as_str().unicode_len() == 0 {
                let mut m = owned("invalid weight '");
                push_str(&mut m, entry);
                push_str(&mut m, "', metric cannot be empty");
                return Err(m);
            }
            let value = trim_range(&v, i + 1, v.len());
            proof {
                assert(v@.subrange(i + 1, v@.len() as int) =~= entry@.skip(i + 1));
            }
            Ok((metric, value))
        },
    }
}

/// Where each accepted score metric is read: `fragmentation_index` in the
/// nested `fragmentation` object, every other metric at the top level; a
/// metric named by its stored field reads that very field, and the aliases
/// `task_ratio`, `priority_ratio` and `runtime_ms` read the fields of
/// `scheduled_task_ratio`, `scheduled_priority_ratio` and
/// `scheduler_runtime_ms`.
pub proof fn lemma_metric_field_names(m: Seq<char>)
    requires
        spec_metric_field(m) is Ok,
    ensures
        m == "fragmentation_index"@ ==> spec_metric_field(m)->Ok_0 == (
            Some("fragmentation"@),
            m,
        ),
        m != "fragmentation_index"@ ==> spec_metric_field(m)->Ok_0.0 is None,
        !(m == "fragmentation_index"@ || m == "task_ratio"@ || m == "priority_ratio"@ || m
            == "runtime_ms"@) ==> spec_metric_field(m)->Ok_0.1 == m,
        m == "task_ratio"@ ==> spec_metric_field(m)->Ok_0.1 == "scheduled_task_ratio"@,
        m == "priority_ratio"@ ==> spec_metric_field(m)->Ok_0.1 == "scheduled_priority_ratio"@,
        m == "runtime_ms"@ ==> spec_metric_field(m)->Ok_0.1 == "scheduler_runtime_ms"@,
{
    reveal_strlit("task_ratio");
    reveal_strlit("scheduled_task_ratio");
    reveal_strlit("scheduled_task_count");
    reveal_strlit("scheduled_priority_sum");
    reveal_strlit("priority_ratio");
    reveal_strlit("scheduled_priority_ratio");
    reveal_strlit("priority_density");
    reveal_strlit("scheduled_time_sec");
    reveal_strlit("requested_time_sec");
    reveal_strlit("scheduled_time_ratio");
    reveal_strlit("utilization");
    reveal_strlit("fragmentation_index");
    reveal_strlit("runtime_ms");
    reveal_strlit("scheduler_runtime_ms");
    assert("task_ratio"@[0] == 't');
    assert("scheduled_task_ratio"@[0] == 's');
    assert("scheduled_task_count"@[0] == 's');
    assert("scheduled_priority_sum"@[0] == 's');
    assert("priority_ratio"@[0] == 'p');
    assert("scheduled_priority_ratio"@[0] == 's');
    assert("priority_density"@[0] == 'p');
    assert("scheduled_time_sec"@[0] == 's');
    assert("requested_time_sec"@[0] == 'r');
    assert("scheduled_time_ratio"@[0] == 's');
    assert("utilization"@[0] == 'u');
    assert("fragmentation_index"@[0] == 'f');
    assert("runtime_ms"@[0] == 'r');
    assert("scheduler_runtime_ms"@[0] == 's');
    assert("runtime_ms"@[1] == 'u');
    assert("requested_time_sec"@[1] == 'e');
}

proof fn lemma_first_bad_metric_none(ms: Seq<Seq<char>>, n: nat)
    requires
        n <= ms.len(),
    ensures
        first_bad_metric(ms, n) is None <==> forall|k: int|
            0 <= k < n ==> #[trigger] spec_metric_field(ms[k]) is Ok,
        first_bad_metric(ms, n) matches Some(k) ==> 0 <= k < n && spec_metric_field(ms[k]) is Err,
    decreases n,
{
    if n > 0 {
        lemma_first_bad_metric_none(ms, (n - 1) as nat);
    }
}

/// Objectives given explicitly are accepted exactly when every metric named
/// is accepted; they are then the maximized metrics, each marked maximized,
/// followed by the minimized ones, each marked minimized, in argument order.
/// Otherwise the error is that of a metric named.
pub proof fn lemma_objectives_follow_arguments(maximize: Seq<Seq<char>>, minimize: Seq<Seq<char>>)
    requires
        maximize.len() + minimize.len() > 0,
    ensures
        spec_objectives(maximize, minimize) is Ok <==> (forall|i: int|
            0 <= i < maximize.len() ==> #[trigger] spec_metric_field(maximize[i]) is Ok) && (
        forall|j: int| 0 <= j < minimize.len() ==> #[trigger] spec_metric_field(minimize[j]) is Ok),
        spec_objectives(maximize, minimize) is Ok ==> {
            let o = spec_objectives(maximize, minimize)->Ok_0;
            &&& o.len() == maximize.len() + minimize.len()
            &&& forall|i: int| 0 <= i < maximize.len() ==> #[trigger] o[i] == (maximize[i], true)
            &&& forall|j: int|
                0 <= j < minimize.len() ==> #[trigger] o[maximize.len() + j] == (minimize[j], false)
        },
        spec_objectives(maximize, minimize) is Err ==> exists|k: int|
            0 <= k < maximize.len() + minimize.len() && spec_objectives(maximize, minimize)->Err_0
                == spec_metric_field(#[trigger] (maximize + minimize)[k])->Err_0,
{
    let all = maximize + minimize;
    lemma_first_bad_metric_none(all, all.len());
    assert forall|i: int| 0 <= i < maximize.len() implies all[i] == maximize[i] by {}
    assert forall|j: int| 0 <= j < minimize.len() implies all[maximize.len() + j] == minimize[j] by {}
    if (forall|i: int| 0 <= i < maximize.len() ==> #[trigger] spec_metric_field(maximize[i]) is Ok)
        && (forall|j: int| 0 <= j < minimize.len() ==> #[trigger] spec_metric_field(minimize[j]) is Ok) {
        assert forall|k: int| 0 <= k < all.len() implies #[trigger] spec_metric_field(all[k]) is Ok by {
            if k < maximize.len() {
                assert(all[k] == maximize[k]);
            } else {
                assert(all[k] == minimize[k - maximize.len()]);
            }
        }
    }
    if spec_objectives(maximize, minimize) is Ok {
        let o = spec_objectives(maximize, minimize)->Ok_0;
        assert forall|k: int| 0 <= k < all.len() implies #[trigger] spec_metric_field(all[k]) is Ok by {}
        assert forall|i: int| 0 <= i < maximize.len() implies #[trigger] spec_metric_field(maximize[i]) is Ok by {
            assert(spec_metric_field(all[i]) is Ok);
        }
        assert forall|j: int| 0 <= j < minimize.len() implies #[trigger] spec_metric_field(minimize[j]) is Ok by {
            assert(spec_metric_field(all[maximize.len() + j]) is Ok);
        }
    }
}

} // verus!
