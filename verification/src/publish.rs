//! Decisions of the schedule upload to the web application: which files are
//! uploaded, how they are split into batches, when a failed request is
//! retried and after how long, and how the per-batch answers add up.
use vstd::prelude::*;
use vstd::string::*;

use crate::artifact::{entry_views, json_parse_result, parse_json};
use crate::text::{chars_of, is_digit, owned, push_str};

verus! {

/// Schedules per upload request.
pub const SCHEDULE_CHUNK_SIZE: usize = 25;

/// Base URL used when none is configured.
pub const DEFAULT_WEBAPP_URL: &'static str = "http://localhost:8080";

/// A JSON file is a self-contained schedule when it carries schedule
/// metadata and the scheduling blocks of its problem (under either name).
pub fn is_self_contained_schedule(
    has_schedule_metadata: bool,
    has_scheduling_blocks: bool,
    has_blocks: bool,
) -> (r: bool)
    ensures
        r == (has_schedule_metadata && (has_scheduling_blocks || has_blocks)),
{
    has_schedule_metadata && (has_scheduling_blocks || has_blocks)
}

pub open spec fn strip_trailing(s: Seq<char>, c: char) -> Seq<char>
    decreases s.len(),
{
    if s.len() > 0 && s.last() == c {
        strip_trailing(s.drop_last(), c)
    } else {
        s
    }
}

/// The base URL without trailing slashes.
pub fn trim_base_url(url: &str) -> (r: String)
    ensures
        r@ == strip_trailing(url@, '/'),
{
    let n = url.unicode_len();
    let mut end = n;
    proof {
        assert(url@.take(n as int) =~= url@);
    }
    while end > 0 && url.get_char(end - 1) == '/'
        invariant
            end <= n,
            n == url@.len(),
            strip_trailing(url@.take(end as int), '/') == strip_trailing(url@, '/'),
        decreases end,
    {
        proof {
            assert(url@.take(end as int).drop_last() =~= url@.take(end - 1));
        }
        end = end - 1;
    }
    proof {
        assert(url@.take(n as int) =~= url@);
    }
    owned(url.substring_char(0, end))
}

/// The first of a command-line value, the current environment variable and
/// its former name that is given.
pub open spec fn first_given(arg: Option<Seq<char>>, current: Option<Seq<char>>, former: Option<
    Seq<char>,
>) -> Option<Seq<char>> {
    match arg {
        Some(a) => Some(a),
        None => match current {
            Some(c) => Some(c),
            None => former,
        },
    }
}

pub open spec fn str_view_opt(o: Option<&str>) -> Option<Seq<char>> {
    match o {
        Some(s) => Some(s@),
        None => None,
    }
}

/// The value taken from the command line, else from the current
/// environment variable, else from its former name.
pub fn pick_setting(arg: Option<&str>, current: Option<&str>, former: Option<&str>) -> (r: Option<
    String,
>)
    ensures
        match r {
            Some(s) => first_given(str_view_opt(arg), str_view_opt(current), str_view_opt(former))
                == Some(s@),
            None => first_given(str_view_opt(arg), str_view_opt(current), str_view_opt(former))
                is None,
        },
{
    match arg {
        Some(a) => Some(owned(a)),
        None => match current {
            Some(c) => Some(owned(c)),
            None => match former {
                Some(f) => Some(owned(f)),
                None => None,
            },
        },
    }
}

/// The base URL to publish to: the argument, else the current environment
/// variable, else its former name, else the default; trailing slashes
/// removed.
pub fn base_url(arg: Option<&str>, current: Option<&str>, former: Option<&str>) -> (r: String)
    ensures
        r@ == strip_trailing(
            match first_given(str_view_opt(arg), str_view_opt(current), str_view_opt(former)) {
                Some(u) => u,
                None => DEFAULT_WEBAPP_URL@,
            },
            '/',
        ),
{
    match pick_setting(arg, current, former) {
        Some(u) => trim_base_url(u.as_str()),
        None => trim_base_url(DEFAULT_WEBAPP_URL),
    }
}

/// `<base>/v1/workspaces`, where workspaces are created.
pub fn workspaces_url(base: &str) -> (r: String)
    ensures
        r@ == base@ + "/v1/workspaces"@,
{
    let mut r = owned(base);
    push_str(&mut r, "/v1/workspaces");
    r
}

/// `<base>/v1/workspaces/<workspace>/schedules/batch`, where a batch of
/// schedules is uploaded.
pub fn batch_url(base: &str, workspace: &str) -> (r: String)
    ensures
        r@ == base@ + "/v1/workspaces/"@ + workspace@ + "/schedules/batch"@,
{
    let mut r = owned(base);
    push_str(&mut r, "/v1/workspaces/");
    push_str(&mut r, workspace);
    push_str(&mut r, "/schedules/batch");
    r
}

/// The `Authorization` header value for a token.
pub fn bearer(token: &str) -> (r: String)
    ensures
        r@ == "Bearer "@ + token@,
{
    let mut r = owned("Bearer ");
    push_str(&mut r, token);
    r
}

/// The batches of `total` files of at most `size` each: consecutive index
/// ranges `[start, end)` covering `0..total`.
pub open spec fn chunks_cover(ranges: Seq<(usize, usize)>, total: nat, size: nat) -> bool {
    &&& forall|k: int|
        0 <= k < ranges.len() ==> #[trigger] ranges[k].0 < ranges[k].1 && ranges[k].1
            - ranges[k].0 <= size
    &&& forall|k: int| 0 < k < ranges.len() ==> #[trigger] ranges[k].0 == ranges[k - 1].1
    &&& ranges.len() == 0 <==> total == 0
    &&& ranges.len() > 0 ==> ranges[0].0 == 0 && ranges.last().1 == total
    &&& forall|k: int| 0 <= k < ranges.len() - 1 ==> #[trigger] ranges[k].1 - ranges[k].0 == size
}

/// Splits `total` files into batches of `size`, the last one shorter.
pub fn chunk_ranges(total: usize, size: usize) -> (r: Vec<(usize, usize)>)
    requires
        size > 0,
    ensures
        chunks_cover(r@, total as nat, size as nat),
{
    let mut r: Vec<(usize, usize)> = Vec::new();
    let mut start: usize = 0;
    while start < total
        invariant
            start <= total,
            size > 0,
            forall|k: int|
                0 <= k < r@.len() ==> #[trigger] r@[k].0 < r@[k].1 && r@[k].1 - r@[k].0 <= size,
            forall|k: int| 0 < k < r@.len() ==> #[trigger] r@[k].0 == r@[k - 1].1,
            r@.len() == 0 <==> start == 0,
            r@.len() > 0 ==> r@[0].0 == 0 && r@.last().1 == start,
            forall|k: int| 0 <= k < r@.len() ==> #[trigger] r@[k].1 - r@[k].0 == size || r@[k].1
                == total,
            forall|k: int| 0 <= k < r@.len() - 1 ==> #[trigger] r@[k].1 - r@[k].0 == size,
        decreases total - start,
    {
        let end = if total - start > size {
            start + size
        } else {
            total
        };
        r.push((start, end));
        start = end;
    }
    r
}

/// Backoff before retry number `attempt` (from 1), in milliseconds: 250 ms
/// doubled per attempt, at most 4 s.
pub open spec fn spec_backoff_ms(attempt: nat) -> nat {
    let e: nat = if attempt - 1 < 4 {
        (attempt - 1) as nat
    } else {
        4
    };
    250 * vstd::arithmetic::power2::pow2(e)
}

pub fn backoff(attempt: u32) -> (ms: u64)
    requires
        attempt >= 1,
    ensures
        ms == spec_backoff_ms(attempt as nat),
{
    let e: u32 = if attempt - 1 < 4 {
        attempt - 1
    } else {
        4
    };
    let secs: u64 = 1u64 << e;
    proof {
        vstd::arithmetic::power2::lemma_pow2_unfold(1);
        vstd::arithmetic::power2::lemma_pow2_unfold(2);
        vstd::arithmetic::power2::lemma_pow2_unfold(3);
        vstd::arithmetic::power2::lemma_pow2_unfold(4);
        vstd::arithmetic::power2::lemma2_to64();
        assert(1u64 << 0u32 == 1) by (bit_vector);
        assert(1u64 << 1u32 == 2) by (bit_vector);
        assert(1u64 << 2u32 == 4) by (bit_vector);
        assert(1u64 << 3u32 == 8) by (bit_vector);
        assert(1u64 << 4u32 == 16) by (bit_vector);
    }
    secs * 250
}

/// What came back from one upload request.
#[derive(Debug, Clone, Copy, PartialEq, Eq)]
pub enum UploadReply {
    /// The request was answered with success; the batch summary follows.
    Accepted { created: u64, deduplicated: u64, failed: u64 },
    /// The request was answered with an error status.
    Status { code: u16 },
    /// No answer: the connection or the transfer failed.
    Transport,
}

/// What to do after a reply.
#[derive(Debug, Clone, Copy, PartialEq, Eq)]
pub enum UploadStep {
    /// The batch is done, with these counts.
    Done { created: u64, deduplicated: u64, failed: u64 },
    /// Send again after waiting this long; this is retry number `attempt`.
    Retry { wait_ms: u64, attempt: u32 },
    /// Stop: the batch failed.
    GiveUp,
}

pub open spec fn spec_upload_step(reply: UploadReply, attempt: nat, retries: nat) -> UploadStep {
    match reply {
        UploadReply::Accepted { created, deduplicated, failed } => UploadStep::Done {
            created,
            deduplicated,
            failed,
        },
        UploadReply::Status { code } => if 500 <= code < 600 && attempt < retries {
            UploadStep::Retry { wait_ms: spec_backoff_ms(attempt + 1) as u64, attempt: (attempt + 1) as u32 }
        } else {
            UploadStep::GiveUp
        },
        UploadReply::Transport => if attempt < retries {
            UploadStep::Retry { wait_ms: spec_backoff_ms(attempt + 1) as u64, attempt: (attempt + 1) as u32 }
        } else {
            UploadStep::GiveUp
        },
    }
}

/// The next step of an upload after `attempt` retries out of `retries`:
/// server errors (5xx) and transport failures are retried while retries
/// remain; other error statuses end the batch at once.
pub fn upload_step(reply: UploadReply, attempt: u32, retries: u32) -> (s: UploadStep)
    ensures
        s == spec_upload_step(reply, attempt as nat, retries as nat),
        s matches UploadStep::Retry { attempt: a, .. } ==> a == attempt + 1 && a <= retries,
{
    match reply {
        UploadReply::Accepted { created, deduplicated, failed } => UploadStep::Done {
            created,
            deduplicated,
            failed,
        },
        UploadReply::Status { code } => if 500 <= code && code < 600 && attempt < retries {
            UploadStep::Retry { wait_ms: backoff(attempt + 1), attempt: attempt + 1 }
        } else {
            UploadStep::GiveUp
        },
        UploadReply::Transport => if attempt < retries {
            UploadStep::Retry { wait_ms: backoff(attempt + 1), attempt: attempt + 1 }
        } else {
            UploadStep::GiveUp
        },
    }
}

/// Counts over all batches.
#[derive(Debug, Clone, Copy, PartialEq, Eq)]
pub struct PublishTotals {
    pub created: usize,
    pub deduplicated: usize,
    pub failed: usize,
}

pub fn empty_totals() -> (t: PublishTotals)
    ensures
        t == (PublishTotals { created: 0, deduplicated: 0, failed: 0 }),
{
    PublishTotals { created: 0, deduplicated: 0, failed: 0 }
}

/// Adds one batch to the totals: its counts when it was accepted, or all of
/// its files as failed when it was not.
pub fn add_batch(totals: PublishTotals, outcome: Option<(usize, usize, usize)>, batch_len: usize) -> (t:
    PublishTotals)
    requires
        match outcome {
            Some((c, d, f)) => totals.created + c <= usize::MAX && totals.deduplicated + d
                <= usize::MAX && totals.failed + f <= usize::MAX,
            None => totals.failed + batch_len <= usize::MAX,
        },
    ensures
        match outcome {
            Some((c, d, f)) => t.created == totals.created + c && t.deduplicated
                == totals.deduplicated + d && t.failed == totals.failed + f,
            None => t.created == totals.created && t.deduplicated == totals.deduplicated
                && t.failed == totals.failed + batch_len,
        },
{
    match outcome {
        Some((c, d, f)) => PublishTotals {
            created: totals.created + c,
            deduplicated: totals.deduplicated + d,
            failed: totals.failed + f,
        },
        None => PublishTotals {
            created: totals.created,
            deduplicated: totals.deduplicated,
            failed: totals.failed + batch_len,
        },
    }
}

/// The upload as a whole fails when any schedule failed.
pub fn publish_failed(totals: PublishTotals) -> (r: bool)
    ensures
        r == (totals.failed > 0),
{
    totals.failed > 0
}

/// The value text of the first entry with key `k`.
pub open spec fn entry_value(e: Seq<(Seq<char>, Seq<char>)>, k: Seq<char>) -> Option<Seq<char>>
    decreases e.len(),
{
    if e.len() == 0 {
        None
    } else if e[0].0 == k {
        Some(e[0].1)
    } else {
        entry_value(e.drop_first(), k)
    }
}

/// The number a text of decimal digits stands for.
pub open spec fn digits_value(s: Seq<char>) -> nat
    decreases s.len(),
{
    if s.len() == 0 {
        0
    } else {
        digits_value(s.drop_last()) * 10 + ((s.last() as int) - 48) as nat
    }
}

/// A count in a reply: the value when its JSON text is a non-negative
/// integer that fits in a `u64`, otherwise 0.
pub open spec fn count_text(t: Seq<char>) -> u64 {
    if t.len() > 0 && (forall|i: int| 0 <= i < t.len() ==> is_digit(#[trigger] t[i]))
        && digits_value(t) <= u64::MAX {
        digits_value(t) as u64
    } else {
        0
    }
}

/// The count stored under `k` in a summary's entries, 0 when absent.
pub open spec fn summary_count(e: Seq<(Seq<char>, Seq<char>)>, k: Seq<char>) -> u64 {
    match entry_value(e, k) {
        Some(t) => count_text(t),
        None => 0,
    }
}

/// The counts of created, deduplicated and failed schedules in an upload
/// reply: read from its `summary` object, each 0 when missing or not a
/// non-negative integer; all 0 when the reply has no `summary` object; the
/// parse error when the reply is not JSON.
pub open spec fn spec_reply_counts(body: Seq<char>) -> Result<(u64, u64, u64), Seq<char>> {
    match json_parse_result(body) {
        Err(e) => Err(e),
        Ok(None) => Ok((0, 0, 0)),
        Ok(Some(entries)) => match entry_value(entries, "summary"@) {
            None => Ok((0, 0, 0)),
            Some(st) => match json_parse_result(st) {
                Ok(Some(se)) => Ok(
                    (
                        summary_count(se, "created"@),
                        summary_count(se, "deduplicated"@),
                        summary_count(se, "failed"@),
                    ),
                ),
                _ => Ok((0, 0, 0)),
            },
        },
    }
}

fn find_entry(v: &Vec<(String, String)>, k: &str) -> (r: Option<String>)
    ensures
        match r {
            Some(s) => entry_value(entry_views(v@), k@) == Some(s@),
            None => entry_value(entry_views(v@), k@) is None,
        },
{
    let ghost ev = entry_views(v@);
    let mut i: usize = 0;
    assert(ev.skip(0) =~= ev);
    while i < v.len()
        invariant
            i <= v@.len(),
            ev == entry_views(v@),
            entry_value(ev, k@) == entry_value(ev.skip(i as int), k@),
        decreases v@.len() - i,
    {
        proof {
            assert(ev.skip(i as int)[0] == ev[i as int]);
            assert(ev.skip(i as int).drop_first() =~= ev.skip(i + 1));
        }
        if crate::text::str_eq(v[i].0.as_str(), k) {
            return Some(v[i].1.clone());
        }
        i = i + 1;
    }
    proof {
        assert(ev.skip(i as int).len() == 0);
    }
    None
}

proof fn lemma_digits_value_grows(s: Seq<char>, i: int, j: int)
    requires
        0 <= i <= j <= s.len(),
    ensures
        digits_value(s.take(i)) <= digits_value(s.take(j)),
    decreases j - i,
{
    if i < j {
        lemma_digits_value_grows(s, i, j - 1);
        assert(s.take(j).drop_last() =~= s.take(j - 1));
    }
}

/// The count a JSON value text stands for.
fn count_of_text(t: &str) -> (r: u64)
    ensures
        r == count_text(t@),
{
    let v = chars_of(t);
    if v.len() == 0 {
        return 0;
    }
    let mut acc: u64 = 0;
    let mut i: usize = 0;
    while i < v.len()
        invariant
            i <= v@.len(),
            v@ == t@,
            v@.len() > 0,
            acc == digits_value(v@.take(i as int)),
            forall|k: int| 0 <= k < i ==> is_digit(#[trigger] v@[k]),
        decreases v@.len() - i,
    {
        let c = v[i];
        if !('0' <= c && c <= '9') {
            return 0;
        }
        let d: u128 = (c as u32 - 48) as u128;
        let next: u128 = acc as u128 * 10 + d;
        proof {
            assert(v@.take(i + 1).drop_last() =~= v@.take(i as int));
            assert(v@.take(i + 1).last() == c);
            assert(next == digits_value(v@.take(i + 1)));
        }
        if next > u64::MAX as u128 {
            proof {
                lemma_digits_value_grows(v@, i + 1, v@.len() as int);
                assert(v@.take(v@.len() as int) =~= v@);
            }
            return 0;
        }
        acc = next as u64;
        i = i + 1;
    }
    proof {
        assert(v@.take(v@.len() as int) =~= v@);
    }
    acc
}

fn count_under(v: &Vec<(String, String)>, k: &str) -> (r: u64)
    ensures
        r == summary_count(entry_views(v@), k@),
{
    match find_entry(v, k) {
        Some(t) => count_of_text(t.as_str()),
        None => 0,
    }
}

/// The created, deduplicated and failed counts of an upload reply.
pub fn reply_counts(body: &str) -> (r: Result<(u64, u64, u64), String>)
    ensures
        match spec_reply_counts(body@) {
            Ok(c) => r == Ok::<(u64, u64, u64), String>(c),
            Err(e) => r is Err && r->Err_0@ == e,
        },
{
    match parse_json(body) {
        Err(e) => Err(e),
        Ok(None) => Ok((0, 0, 0)),
        Ok(Some(entries)) => match find_entry(&entries, "summary") {
            None => Ok((0, 0, 0)),
            Some(st) => match parse_json(st.as_str()) {
                Ok(Some(se)) => Ok(
                    (
                        count_under(&se, "created"),
                        count_under(&se, "deduplicated"),
                        count_under(&se, "failed"),
                    ),
                ),
                _ => Ok((0, 0, 0)),
            },
        },
    }
}

} // verus!
