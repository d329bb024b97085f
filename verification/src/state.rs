//! Checkpoint events of a matrix run.
//!
//! Each executed cell records a `started` event and then a `completed` or
//! `failed` event. On resume, the cells whose latest event is `completed`
//! are skipped.
use vstd::prelude::*;

verus! {

/// Execution status of one matrix cell.
#[derive(Debug, Clone, Copy, PartialEq, Eq, Structural)]
pub enum CellStatus {
    Started,
    Completed,
    Failed,
}

/// One line of the checkpoint stream.
#[derive(Debug, Clone)]
pub struct StateEvent {
    pub cell_id: String,
    pub status: CellStatus,
    /// Path to the schedule JSON, for `completed`.
    pub schedule_path: Option<String>,
    /// Path to the metrics JSON, for `completed`.
    pub metrics_path: Option<String>,
    /// Error message, for `failed`.
    pub error: Option<String>,
    /// RFC 3339 timestamp of the start of the cell.
    pub started_at: String,
    /// RFC 3339 timestamp of the end of the cell, absent for `started`.
    pub finished_at: Option<String>,
}

/// Status of the latest event of cell `id`, if it has events.
pub open spec fn latest_status(events: Seq<StateEvent>, id: Seq<char>) -> Option<CellStatus>
    decreases events.len(),
{
    if events.len() == 0 {
        None
    } else if events.last().cell_id@ == id {
        Some(events.last().status)
    } else {
        latest_status(events.drop_last(), id)
    }
}

/// No later event belongs to the same cell as event `i`.
pub open spec fn is_last_of_cell(events: Seq<StateEvent>, i: int) -> bool {
    forall|j: int| i < j < events.len() ==> #[trigger] events[j].cell_id@ != events[i].cell_id@
}

/// Ids of the cells whose latest event among the first `n` is `completed`
/// and lies among the first `n`, ordered by the position of that event.
pub open spec fn completed_prefix(events: Seq<StateEvent>, n: nat) -> Seq<Seq<char>>
    decreases n,
{
    if n == 0 {
        Seq::empty()
    } else {
        let i = n - 1;
        completed_prefix(events, (n - 1) as nat) + if is_last_of_cell(events, i)
            && events[i].status == CellStatus::Completed {
            seq![events[i].cell_id@]
        } else {
            Seq::empty()
        }
    }
}

/// The cells whose latest event is `completed`, each once, ordered by the
/// position of that latest event.
pub fn completed_cells(events: &Vec<StateEvent>) -> (r: Vec<String>)
    ensures
        r@.map_values(|s: String| s@) == completed_prefix(events@, events@.len()),
{
    let mut r: Vec<String> = Vec::new();
    let mut i: usize = 0;
    while i < events.len()
        invariant
            i <= events.len(),
            r@.map_values(|s: String| s@) == completed_prefix(events@, i as nat),
        decreases events.len() - i,
    {
        let mut later = false;
        let mut j: usize = i + 1;
        while j < events.len()
            invariant
                i < events.len(),
                i + 1 <= j <= events.len(),
                !later ==> forall|t: int|
                    i < t < j ==> #[trigger] events@[t].cell_id@ != events@[i as int].cell_id@,
                later ==> !is_last_of_cell(events@, i as int),
            decreases events.len() - j,
        {
            if events[j].cell_id == events[i].cell_id {
                later = true;
            }
            j = j + 1;
        }
        let ghost before = r@;
        if !later && events[i].status == CellStatus::Completed {
            r.push(events[i].cell_id.clone());
        }
        proof {
            assert(r@.map_values(|s: String| s@) =~= completed_prefix(events@, (i + 1) as nat));
        }
        i = i + 1;
    }
    r
}

proof fn lemma_latest_status(events: Seq<StateEvent>, id: Seq<char>, st: CellStatus)
    ensures
        latest_status(events, id) == Some(st) <==> exists|i: int|
            0 <= i < events.len() && #[trigger] events[i].cell_id@ == id && is_last_of_cell(
                events,
                i,
            ) && events[i].status == st,
    decreases events.len(),
{
    if events.len() > 0 {
        let n = events.len() - 1;
        let init = events.drop_last();
        lemma_latest_status(init, id, st);
        if events[n].cell_id@ == id {
            if latest_status(events, id) == Some(st) {
                assert(is_last_of_cell(events, n));
            }
            if exists|i: int|
                0 <= i < events.len() && #[trigger] events[i].cell_id@ == id && is_last_of_cell(
                    events,
                    i,
                ) && events[i].status == st {
                let i = choose|i: int|
                    0 <= i < events.len() && #[trigger] events[i].cell_id@ == id
                        && is_last_of_cell(events, i) && events[i].status == st;
                if i < n {
                    assert(events[n].cell_id@ != events[i].cell_id@);
                }
            }
        } else {
            if latest_status(events, id) == Some(st) {
                let i = choose|i: int|
                    0 <= i < init.len() && #[trigger] init[i].cell_id@ == id && is_last_of_cell(
                        init,
                        i,
                    ) && init[i].status == st;
                assert(events[i] == init[i]);
                assert forall|j: int| i < j < events.len() implies #[trigger] events[j].cell_id@
                    != events[i].cell_id@ by {
                    if j < n {
                        assert(events[j] == init[j]);
                    }
                }
            }
            if exists|i: int|
                0 <= i < events.len() && #[trigger] events[i].cell_id@ == id && is_last_of_cell(
                    events,
                    i,
                ) && events[i].status == st {
                let i = choose|i: int|
                    0 <= i < events.len() && #[trigger] events[i].cell_id@ == id
                        && is_last_of_cell(events, i) && events[i].status == st;
                assert(i < n);
                assert(init[i] == events[i]);
                assert forall|j: int| i < j < init.len() implies #[trigger] init[j].cell_id@
                    != init[i].cell_id@ by {
                    assert(init[j] == events[j]);
                }
            }
        }
    }
}

proof fn lemma_completed_prefix_members(events: Seq<StateEvent>, n: nat, id: Seq<char>)
    requires
        n <= events.len(),
    ensures
        completed_prefix(events, n).contains(id) <==> exists|i: int|
            0 <= i < n && #[trigger] events[i].cell_id@ == id && is_last_of_cell(events, i)
                && events[i].status == CellStatus::Completed,
    decreases n,
{
    if n > 0 {
        lemma_completed_prefix_members(events, (n - 1) as nat, id);
        let prev = completed_prefix(events, (n - 1) as nat);
        let i = n - 1;
        let tail = if is_last_of_cell(events, i) && events[i].status == CellStatus::Completed {
            seq![events[i].cell_id@]
        } else {
            Seq::empty()
        };
        assert(completed_prefix(events, n) == prev + tail);
        if (prev + tail).contains(id) {
            let k = choose|k: int| 0 <= k < (prev + tail).len() && (prev + tail)[k] == id;
            if k < prev.len() {
                assert(prev[k] == id);
                assert(prev.contains(id));
            }
        }
        if prev.contains(id) {
            let k = choose|k: int| 0 <= k < prev.len() && prev[k] == id;
            assert((prev + tail)[k] == id);
        }
        if tail.len() > 0 && events[i].cell_id@ == id {
            assert((prev + tail)[prev.len() as int] == id);
        }
    }
}

/// A cell is reported completed exactly when its latest event is
/// `completed`.
pub proof fn lemma_completed_iff_latest(events: Seq<StateEvent>, id: Seq<char>)
    ensures
        completed_prefix(events, events.len()).contains(id) <==> latest_status(events, id)
            == Some(CellStatus::Completed),
{
    lemma_completed_prefix_members(events, events.len(), id);
    lemma_latest_status(events, id, CellStatus::Completed);
}

/// Each cell is reported at most once.
pub proof fn lemma_completed_distinct(events: Seq<StateEvent>, n: nat)
    requires
        n <= events.len(),
    ensures
        forall|a: int, b: int|
            0 <= a < b < completed_prefix(events, n).len() ==> #[trigger] completed_prefix(
                events,
                n,
            )[a] != #[trigger] completed_prefix(events, n)[b],
    decreases n,
{
    if n > 0 {
        lemma_completed_distinct(events, (n - 1) as nat);
        let prev = completed_prefix(events, (n - 1) as nat);
        let i = n - 1;
        if is_last_of_cell(events, i) && events[i].status == CellStatus::Completed {
            let cur = completed_prefix(events, n);
            assert(cur == prev + seq![events[i].cell_id@]);
            assert forall|a: int, b: int| 0 <= a < b < cur.len() implies cur[a] != cur[b] by {
                if b == prev.len() {
                    assert(cur[a] == prev[a]);
                    lemma_completed_prefix_members(events, (n - 1) as nat, prev[a]);
                    let k = choose|k: int|
                        0 <= k < n - 1 && #[trigger] events[k].cell_id@ == prev[a]
                            && is_last_of_cell(events, k) && events[k].status
                            == CellStatus::Completed;
                    assert(prev.contains(prev[a]));
                    assert(events[i].cell_id@ != events[k].cell_id@);
                } else {
                    assert(cur[a] == prev[a] && cur[b] == prev[b]);
                }
            }
        } else {
            assert(completed_prefix(events, n) =~= prev);
        }
    }
}

} // verus!
