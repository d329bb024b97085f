//! The full schedule artifact of one run.
//!
//! The registry keeps one schedule body per distinct placement set; the
//! run-specific `schedule_metadata` and `schedule_metrics` live on the run.
//! Exporting a run puts them back into its body, and fails, naming the run,
//! when the registry is inconsistent or predates per-run metadata.
use vstd::prelude::*;
use vstd::string::*;

use crate::registry::RunRow;
use crate::table::{byte_len, cuts_between_chars, utf8_cut, utf8_prefix};
use crate::text::{owned, push_str, str_eq};

verus! {

/// The entries of a JSON object: each key with the compact JSON text of
/// its value.
pub open spec fn entry_views(v: Seq<(String, String)>) -> Seq<(Seq<char>, Seq<char>)> {
    v.map_values(|e: (String, String)| (e.0@, e.1@))
}

/// What `serde_json` makes of a text: the entries of an object, in the
/// order its map keeps them, with each value printed compactly; `None` for
/// any other JSON value; or the text of the parse error.
pub uninterp spec fn json_parse_result(text: Seq<char>) -> Result<
    Option<Seq<(Seq<char>, Seq<char>)>>,
    Seq<char>,
>;

/// Calls `serde_json::from_str` into a `serde_json::Value`.
///
/// Claimed: the outcome (the object's entries, keys with their values
/// printed by `Value`'s `Display`; `None` for another value; the error's
/// `Display` text) is the named result of the text.
#[verifier::external_body]
pub(crate) fn parse_json(text: &str) -> (r: Result<Option<Vec<(String, String)>>, String>)
    ensures
        match r {
            Ok(Some(v)) => json_parse_result(text@) == Ok::<
                Option<Seq<(Seq<char>, Seq<char>)>>,
                Seq<char>,
            >(Some(entry_views(v@))),
            Ok(None) => json_parse_result(text@) == Ok::<
                Option<Seq<(Seq<char>, Seq<char>)>>,
                Seq<char>,
            >(None),
            Err(e) => json_parse_result(text@) == Err::<
                Option<Seq<(Seq<char>, Seq<char>)>>,
                Seq<char>,
            >(e@),
        },
{
    match serde_json::from_str::<serde_json::Value>(text) {
        Ok(serde_json::Value::Object(m)) => Ok(
            Some(m.iter().map(|(k, v)| (k.clone(), v.to_string())).collect()),
        ),
        Ok(_) => Ok(None),
        Err(e) => Err(e.to_string()),
    }
}

/// The pretty-printed JSON object made of the given entries, each value
/// text read as JSON.
pub uninterp spec fn json_pretty_object(entries: Seq<(Seq<char>, Seq<char>)>) -> Seq<char>;

/// Collects the entries into a `serde_json::Map` (each value text read with
/// `serde_json::from_str`) and prints it with `serde_json::to_string_pretty`.
///
/// Claimed: the result is the named print of the entries. Printing a
/// `serde_json::Value` cannot fail; a value text that is not JSON is read as
/// `null`, which callers never hand over.
#[verifier::external_body]
fn print_json_object(entries: &Vec<(String, String)>) -> (r: String)
    ensures
        r@ == json_pretty_object(entry_views(entries@)),
{
    let map: serde_json::Map<String, serde_json::Value> = entries
        .iter()
        .map(|(k, v)| (k.clone(), serde_json::from_str(v).unwrap_or_default()))
        .collect();
    serde_json::to_string_pretty(&serde_json::Value::Object(map)).unwrap_or_default()
}

/// Whether an entry carries one of the run-specific fields.
pub open spec fn is_run_field(key: Seq<char>) -> bool {
    key == "schedule_metadata"@ || key == "schedule_metrics"@
}

/// The first `n` entries without the run-specific fields.
pub open spec fn shared_entries(e: Seq<(Seq<char>, Seq<char>)>, n: nat) -> Seq<(Seq<char>, Seq<char>)>
    decreases n,
{
    if n == 0 {
        Seq::empty()
    } else if is_run_field(e[n - 1].0) {
        shared_entries(e, (n - 1) as nat)
    } else {
        shared_entries(e, (n - 1) as nat).push(e[n - 1])
    }
}

/// The entries of a run's artifact: the body's entries without any
/// embedded run-specific fields, then this run's `schedule_metadata`, then
/// its `schedule_metrics` when given.
pub open spec fn artifact_entries(
    body: Seq<(Seq<char>, Seq<char>)>,
    metadata: Seq<char>,
    metrics: Option<Seq<char>>,
) -> Seq<(Seq<char>, Seq<char>)> {
    let base = shared_entries(body, body.len()).push(("schedule_metadata"@, metadata));
    match metrics {
        Some(m) => base.push(("schedule_metrics"@, m)),
        None => base,
    }
}

proof fn lemma_shared_entries(e: Seq<(Seq<char>, Seq<char>)>, n: nat)
    requires
        n <= e.len(),
    ensures
        forall|x: (Seq<char>, Seq<char>)|
            #[trigger] shared_entries(e, n).contains(x) <==> (!is_run_field(x.0) && exists|i: int|
                0 <= i < n && e[i] == x),
    decreases n,
{
    if n > 0 {
        lemma_shared_entries(e, (n - 1) as nat);
        let prev = shared_entries(e, (n - 1) as nat);
        assert forall|x: (Seq<char>, Seq<char>)|
            #[trigger] shared_entries(e, n).contains(x) <==> (!is_run_field(x.0) && exists|i: int|
                0 <= i < n && e[i] == x) by {
            if !is_run_field(e[n - 1].0) {
                crate::runner::lemma_push_contains(prev, e[n - 1], x);
            }
            if !is_run_field(x.0) && exists|i: int| 0 <= i < n && e[i] == x {
                let i = choose|i: int| 0 <= i < n && e[i] == x;
                if i < n - 1 {
                    assert(prev.contains(x));
                    if !is_run_field(e[n - 1].0) {
                        crate::runner::lemma_push_contains(prev, e[n - 1], x);
                    }
                }
            }
        }
    }
}

/// The artifact of a run keeps every field of the stored body except the
/// run-specific ones, adds nothing else of the body, and carries exactly
/// this run's metadata and, when given, this run's metrics: embedded
/// metadata or metrics of another run never survive.
pub proof fn lemma_artifact_entries(
    body: Seq<(Seq<char>, Seq<char>)>,
    metadata: Seq<char>,
    metrics: Option<Seq<char>>,
)
    ensures
        ({
            let a = artifact_entries(body, metadata, metrics);
            &&& forall|i: int|
                0 <= i < body.len() && !is_run_field(#[trigger] body[i].0) ==> a.contains(body[i])
            &&& forall|x: (Seq<char>, Seq<char>)|
                #[trigger] a.contains(x) && !is_run_field(x.0) ==> body.contains(x)
            &&& a.contains(("schedule_metadata"@, metadata))
            &&& forall|x: (Seq<char>, Seq<char>)|
                #[trigger] a.contains(x) && x.0 == "schedule_metadata"@ ==> x.1 == metadata
            &&& forall|x: (Seq<char>, Seq<char>)|
                #[trigger] a.contains(x) && x.0 == "schedule_metrics"@ ==> metrics == Some(x.1)
            &&& metrics is Some ==> a.contains(("schedule_metrics"@, metrics->Some_0))
        }),
{
    lemma_shared_entries(body, body.len());
    let s = shared_entries(body, body.len());
    let base = s.push(("schedule_metadata"@, metadata));
    let a = artifact_entries(body, metadata, metrics);
    assert forall|x: (Seq<char>, Seq<char>)| #[trigger] base.contains(x) <==> (s.contains(x) || x == (
        "schedule_metadata"@,
        metadata,
    )) by {
        crate::runner::lemma_push_contains(s, ("schedule_metadata"@, metadata), x);
    }
    if metrics is Some {
        let m = ("schedule_metrics"@, metrics->Some_0);
        assert forall|x: (Seq<char>, Seq<char>)| #[trigger] a.contains(x) <==> (base.contains(x)
            || x == m) by {
            crate::runner::lemma_push_contains(base, m, x);
        }
    }
    assert forall|i: int|
        0 <= i < body.len() && !is_run_field(#[trigger] body[i].0) implies a.contains(body[i]) by {
        assert(s.contains(body[i]));
        assert(base.contains(body[i]));
    }
    assert forall|x: (Seq<char>, Seq<char>)| #[trigger]
        a.contains(x) && !is_run_field(x.0) implies body.contains(x) by {
        assert(s.contains(x));
        let i = choose|i: int| 0 <= i < body.len() && body[i] == x;
        assert(body[i] == x);
    }
    assert(base.contains(("schedule_metadata"@, metadata)));
    assert("schedule_metadata"@ != "schedule_metrics"@) by {
        reveal_strlit("schedule_metadata");
        reveal_strlit("schedule_metrics");
        assert("schedule_metadata"@[12] != "schedule_metrics"@[12]);
    }
    assert forall|x: (Seq<char>, Seq<char>)| #[trigger]
        a.contains(x) && x.0 == "schedule_metadata"@ implies x.1 == metadata by {
        if s.contains(x) {
            assert(is_run_field(x.0));
        }
    }
    assert forall|x: (Seq<char>, Seq<char>)| #[trigger]
        a.contains(x) && x.0 == "schedule_metrics"@ implies metrics == Some(x.1) by {
        if s.contains(x) {
            assert(is_run_field(x.0));
        }
    }
    if metrics is Some {
        assert(a.contains(("schedule_metrics"@, metrics->Some_0)));
    }
}

/// Bytes of a key shown in error messages: 16, or fewer for a shorter key.
pub open spec fn key_cut(s: Seq<char>) -> nat {
    if byte_len(s) <= 16 {
        byte_len(s)
    } else {
        16
    }
}

/// The first 16 bytes of a key, as error messages show it.
pub open spec fn short_key(s: Seq<char>) -> Seq<char> {
    utf8_prefix(s, key_cut(s))
}

/// `run '<key>'`, the start of every error about a run.
pub open spec fn run_label(row: RunRow) -> Seq<char> {
    "run '"@ + short_key(row.run_key@) + "'"@
}

pub open spec fn predates_message() -> Seq<char> {
    " has no stored schedule metadata; this database predates the schedule-deduplication fix. Re-run with `lab run --override` or run the one-off migration (lab/src/bin/migrate_schedule_dedup.rs)"@
}

/// The artifact of a run, or why it cannot be rebuilt. The checks come in
/// this order: a schedule hash, a stored body, a body that parses, a body
/// that is an object, stored metadata, metadata that parses, metrics that
/// parse. The artifact is the body's own entries with this run's metadata
/// and, when they form an object, its metrics in place of any embedded ones.
pub open spec fn spec_reconstruct(row: RunRow) -> Result<Seq<char>, Seq<char>> {
    match row.schedule_hash {
        None => Err(run_label(row) + " has no schedule_hash; registry is inconsistent"@),
        Some(h) => match row.schedule_json {
            None => Err(
                run_label(row) + " references missing schedule '"@ + short_key(h@)
                    + "'; registry is inconsistent"@,
            ),
            Some(body) => match json_parse_result(body@) {
                Err(e) => Err(run_label(row) + " has an invalid stored schedule body: "@ + e),
                Ok(None) => Err(run_label(row) + " stored schedule body is not a JSON object"@),
                Ok(Some(entries)) => match row.metadata_json {
                    None => Err(run_label(row) + predates_message()),
                    Some(md) => match json_parse_result(md@) {
                        Err(e) => Err(run_label(row) + " has invalid stored metadata JSON: "@ + e),
                        Ok(_) => match json_parse_result(row.metrics_json@) {
                            Err(e) => Err(
                                run_label(row) + " has invalid stored metrics JSON: "@ + e,
                            ),
                            Ok(shape) => Ok(
                                json_pretty_object(
                                    artifact_entries(
                                        entries,
                                        md@,
                                        match shape {
                                            Some(_) => Some(row.metrics_json@),
                                            None => None,
                                        },
                                    ),
                                ),
                            ),
                        },
                    },
                },
            },
        },
    }
}

/// The key cuts shown in error messages fall between characters: the run
/// key's always, the schedule hash's when the stored body is missing.
pub open spec fn key_cuts_fit(row: RunRow) -> bool {
    &&& cuts_between_chars(row.run_key@, key_cut(row.run_key@))
    &&& (row.schedule_json is None && row.schedule_hash is Some) ==> cuts_between_chars(
        row.schedule_hash->Some_0@,
        key_cut(row.schedule_hash->Some_0@),
    )
}

/// Some entry carries a run-specific field.
pub open spec fn has_run_field(e: Seq<(Seq<char>, Seq<char>)>) -> bool {
    exists|i: int| 0 <= i < e.len() && is_run_field(#[trigger] e[i].0)
}

/// The entries left after dropping the run-specific fields are the entries
/// that `filter` keeps.
pub proof fn lemma_shared_entries_filter(e: Seq<(Seq<char>, Seq<char>)>, n: nat)
    requires
        n <= e.len(),
    ensures
        shared_entries(e, n) == e.take(n as int).filter(
            |x: (Seq<char>, Seq<char>)| !is_run_field(x.0),
        ),
    decreases n,
{
    reveal(Seq::filter);
    if n > 0 {
        lemma_shared_entries_filter(e, (n - 1) as nat);
        assert(e.take(n as int).drop_last() =~= e.take(n - 1));
        assert(e.take(n as int).last() == e[n - 1]);
    } else {
        assert(e.take(0) =~= Seq::<(Seq<char>, Seq<char>)>::empty());
    }
}

/// The body's entries without the run-specific fields, and whether it had
/// any.
fn shared_entries_of(v: Vec<(String, String)>) -> (r: (Vec<(String, String)>, bool))
    ensures
        entry_views(r.0@) == shared_entries(entry_views(v@), v@.len()),
        r.1 == has_run_field(entry_views(v@)),
{
    let ghost ev = entry_views(v@);
    let mut r: Vec<(String, String)> = Vec::new();
    let mut found = false;
    let mut i: usize = 0;
    while i < v.len()
        invariant
            i <= v@.len(),
            ev == entry_views(v@),
            entry_views(r@) == shared_entries(ev, i as nat),
            found == exists|k: int| 0 <= k < i && is_run_field(#[trigger] ev[k].0),
        decreases v@.len() - i,
    {
        let key = v[i].0.as_str();
        let run_field = str_eq(key, "schedule_metadata") || str_eq(key, "schedule_metrics");
        proof {
            assert(ev[i as int] == (v@[i as int].0@, v@[i as int].1@));
            assert(run_field == is_run_field(ev[i as int].0));
        }
        if !run_field {
            let e = (v[i].0.clone(), v[i].1.clone());
            r.push(e);
            proof {
                assert(entry_views(r@) =~= shared_entries(ev, i as nat).push(ev[i as int]));
            }
        } else {
            found = true;
        }
        proof {
            if exists|k: int| 0 <= k < i + 1 && is_run_field(#[trigger] ev[k].0) {
                let k = choose|k: int| 0 <= k < i + 1 && is_run_field(#[trigger] ev[k].0);
                if k < i {
                    assert(found);
                }
            }
        }
        i = i + 1;
    }
    (r, found)
}

/// What the stored body of a schedule becomes once the run-specific fields
/// are dropped: `Ok(Some(..))` with the pretty-printed rest when the body is
/// an object holding `schedule_metadata` or `schedule_metrics`; `Ok(None)`
/// when it is another value or an object without them (left as it is); the
/// parse error when it is not JSON.
pub open spec fn spec_strip_run_fields(body: Seq<char>) -> Result<Option<Seq<char>>, Seq<char>> {
    match json_parse_result(body) {
        Err(e) => Err(e),
        Ok(None) => Ok(None),
        Ok(Some(e)) => if has_run_field(e) {
            Ok(Some(json_pretty_object(shared_entries(e, e.len()))))
        } else {
            Ok(None)
        },
    }
}

/// Drops the run-specific fields from a stored schedule body.
pub fn strip_run_fields(body: &str) -> (r: Result<Option<String>, String>)
    ensures
        match spec_strip_run_fields(body@) {
            Ok(Some(s)) => r is Ok && r->Ok_0 is Some && r->Ok_0->Some_0@ == s,
            Ok(None) => r is Ok && r->Ok_0 is None,
            Err(e) => r is Err && r->Err_0@ == e,
        },
{
    match parse_json(body) {
        Err(e) => Err(e),
        Ok(None) => Ok(None),
        Ok(Some(v)) => {
            let (kept, found) = shared_entries_of(v);
            if found {
                Ok(Some(print_json_object(&kept)))
            } else {
                Ok(None)
            }
        },
    }
}

fn short_key_of(s: &str) -> (r: &str)
    requires
        cuts_between_chars(s@, key_cut(s@)),
    ensures
        r@ == short_key(s@),
{
    let n = s.as_bytes().len();
    let cut: usize = if n <= 16 {
        n
    } else {
        16
    };
    utf8_cut(s, cut)
}

fn run_error(row: &RunRow, tail: &str) -> (r: String)
    requires
        key_cuts_fit(*row),
    ensures
        r@ == run_label(*row) + tail@,
{
    let mut m = owned("run '");
    push_str(&mut m, short_key_of(row.run_key.as_str()));
    push_str(&mut m, "'");
    push_str(&mut m, tail);
    m
}

fn run_error_with(row: &RunRow, tail: &str, detail: &str) -> (r: String)
    requires
        key_cuts_fit(*row),
    ensures
        r@ == run_label(*row) + tail@ + detail@,
{
    let mut m = run_error(row, tail);
    push_str(&mut m, detail);
    m
}

/// Rebuilds the complete schedule artifact of a run: its stored body with
/// this run's metadata and metrics put in as top-level fields.
pub fn reconstruct_artifact(row: &RunRow) -> (r: Result<String, String>)
    requires
        key_cuts_fit(*row),
    ensures
        match spec_reconstruct(*row) {
            Ok(s) => r is Ok && r->Ok_0@ == s,
            Err(e) => r is Err && r->Err_0@ == e,
        },
{
    let hash = match &row.schedule_hash {
        Some(h) => h,
        None => {
            return Err(run_error(row, " has no schedule_hash; registry is inconsistent"));
        },
    };
    let body = match &row.schedule_json {
        Some(b) => b,
        None => {
            let mut m = run_error(row, " references missing schedule '");
            push_str(&mut m, short_key_of(hash.as_str()));
            push_str(&mut m, "'; registry is inconsistent");
            return Err(m);
        },
    };
    let entries = match parse_json(body.as_str()) {
        Err(e) => {
            return Err(
                run_error_with(row, " has an invalid stored schedule body: ", e.as_str()),
            );
        },
        Ok(None) => {
            return Err(run_error(row, " stored schedule body is not a JSON object"));
        },
        Ok(Some(v)) => v,
    };
    let md = match &row.metadata_json {
        Some(m) => m,
        None => {
            return Err(
                run_error(
                    row,
                    " has no stored schedule metadata; this database predates the schedule-deduplication fix. Re-run with `lab run --override` or run the one-off migration (lab/src/bin/migrate_schedule_dedup.rs)",
                ),
            );
        },
    };
    if let Err(e) = parse_json(md.as_str()) {
        return Err(run_error_with(row, " has invalid stored metadata JSON: ", e.as_str()));
    }
    let metrics_object = match parse_json(row.metrics_json.as_str()) {
        Err(e) => {
            return Err(run_error_with(row, " has invalid stored metrics JSON: ", e.as_str()));
        },
        Ok(Some(_)) => true,
        Ok(None) => false,
    };
    let ghost body_entries = entry_views(entries@);
    let (mut out, _) = shared_entries_of(entries);
    out.push((owned("schedule_metadata"), md.clone()));
    if metrics_object {
        out.push((owned("schedule_metrics"), row.metrics_json.clone()));
    }
    proof {
        assert(entry_views(out@) =~= artifact_entries(
            body_entries,
            md@,
            if metrics_object {
                Some(row.metrics_json@)
            } else {
                None
            },
        ));
    }
    Ok(print_json_object(&out))
}

} // verus!
