//! Renaming of duplicate scheduling-block ids in converted datasets.
//!
//! The first block with a given id keeps it; each later block with an id
//! already taken receives the next fresh id above the largest original id,
//! and so do its tasks that carried the block's old id.
use vstd::prelude::*;

use crate::runner::lemma_push_contains;

verus! {

/// The ids of one scheduling block and of its tasks.
#[derive(Debug, Clone)]
pub struct BlockIds {
    pub id: u64,
    pub task_ids: Vec<u64>,
}

/// The largest id among the first `n` blocks, 0 when there is none.
pub open spec fn max_id(s: Seq<BlockIds>, n: nat) -> nat
    decreases n,
{
    if n == 0 {
        0
    } else {
        let m = max_id(s, (n - 1) as nat);
        if s[n - 1].id as nat > m {
            s[n - 1].id as nat
        } else {
            m
        }
    }
}

/// Block `i` repeats the id of an earlier block.
pub open spec fn is_dup(s: Seq<BlockIds>, i: int) -> bool {
    exists|j: int| 0 <= j < i && #[trigger] s[j].id == s[i].id
}

/// Number of repeated ids among the first `n` blocks.
pub open spec fn dup_count(s: Seq<BlockIds>, n: nat) -> nat
    decreases n,
{
    if n == 0 {
        0
    } else {
        dup_count(s, (n - 1) as nat) + if is_dup(s, n - 1) {
            1nat
        } else {
            0nat
        }
    }
}

/// The id block `i` ends up with.
pub open spec fn new_id(s: Seq<BlockIds>, i: int) -> nat {
    if is_dup(s, i) {
        max_id(s, s.len()) + 1 + dup_count(s, i as nat)
    } else {
        s[i].id as nat
    }
}

pub open spec fn renamed_tasks(ts: Seq<u64>, from: u64, to: u64) -> Seq<u64> {
    ts.map_values(|t: u64| if t == from { to } else { t })
}

/// Block `b` is block `o` after renaming it to `id`.
pub open spec fn renamed_block(o: BlockIds, b: BlockIds, id: nat) -> bool {
    &&& b.id as nat == id
    &&& b.task_ids@ == renamed_tasks(o.task_ids@, o.id, b.id)
}

proof fn lemma_max_bounds(s: Seq<BlockIds>, n: nat)
    requires
        n <= s.len(),
    ensures
        forall|j: int| 0 <= j < n ==> (#[trigger] s[j].id) as nat <= max_id(s, n),
        n > 0 ==> exists|j: int| 0 <= j < n && (#[trigger] s[j].id) as nat == max_id(s, n),
    decreases n,
{
    if n > 0 {
        lemma_max_bounds(s, (n - 1) as nat);
    }
}

proof fn lemma_dup_count_le(s: Seq<BlockIds>, n: nat)
    ensures
        dup_count(s, n) <= n,
    decreases n,
{
    if n > 0 {
        lemma_dup_count_le(s, (n - 1) as nat);
    }
}

proof fn lemma_dup_count_mono(s: Seq<BlockIds>, a: nat, b: nat)
    requires
        a <= b,
    ensures
        dup_count(s, a) <= dup_count(s, b),
        a < b && is_dup(s, a as int) ==> dup_count(s, a) < dup_count(s, b),
    decreases b,
{
    if a < b {
        lemma_dup_count_mono(s, a, (b - 1) as nat);
    }
}

fn contains_id(v: &Vec<u64>, x: u64) -> (b: bool)
    ensures
        b == v@.contains(x),
{
    let mut i: usize = 0;
    while i < v.len()
        invariant
            i <= v.len(),
            forall|t: int| 0 <= t < i ==> v@[t] != x,
        decreases v.len() - i,
    {
        if v[i] == x {
            return true;
        }
        i = i + 1;
    }
    false
}

fn rename_tasks(ts: &Vec<u64>, from: u64, to: u64) -> (r: Vec<u64>)
    ensures
        r@ == renamed_tasks(ts@, from, to),
{
    let mut r: Vec<u64> = Vec::new();
    let mut i: usize = 0;
    while i < ts.len()
        invariant
            i <= ts.len(),
            r@ == renamed_tasks(ts@.take(i as int), from, to),
        decreases ts.len() - i,
    {
        if ts[i] == from {
            r.push(to);
        } else {
            r.push(ts[i]);
        }
        i = i + 1;
        proof {
            assert(r@ =~= renamed_tasks(ts@.take(i as int), from, to));
        }
    }
    proof {
        assert(ts@.take(ts@.len() as int) =~= ts@);
    }
    r
}

/// Gives every block whose id repeats an earlier block's id a fresh id
/// (and renames its tasks that carried the old id); returns how many blocks
/// were renamed.
pub fn normalize_duplicate_block_ids(blocks: &mut Vec<BlockIds>) -> (renamed: usize)
    requires
        max_id(old(blocks)@, old(blocks)@.len()) + dup_count(old(blocks)@, old(blocks)@.len())
            <= u64::MAX,
    ensures
        renamed as nat == dup_count(old(blocks)@, old(blocks)@.len()),
        final(blocks)@.len() == old(blocks)@.len(),
        forall|i: int|
            0 <= i < old(blocks)@.len() ==> renamed_block(
                #[trigger] old(blocks)@[i],
                final(blocks)@[i],
                new_id(old(blocks)@, i),
            ),
{
    let ghost s = blocks@;
    let n = blocks.len();
    let mut max: u64 = 0;
    let mut k: usize = 0;
    while k < n
        invariant
            k <= n,
            n == s.len(),
            blocks@ == s,
            max as nat == max_id(s, k as nat),
        decreases n - k,
    {
        if blocks[k].id > max {
            max = blocks[k].id;
        }
        k = k + 1;
    }
    proof {
        lemma_max_bounds(s, n as nat);
    }
    let mut next_id: u64 = if max < u64::MAX {
        max + 1
    } else {
        max
    };
    let ghost mut nxt: int = max + 1;
    let mut seen: Vec<u64> = Vec::new();
    let mut renamed: usize = 0;
    let mut i: usize = 0;
    while i < n
        invariant
            i <= n,
            n == s.len(),
            blocks@.len() == n,
            max as nat == max_id(s, n as nat),
            max as nat + dup_count(s, n as nat) <= u64::MAX,
            forall|j: int| 0 <= j < n ==> (#[trigger] s[j].id) as nat <= max,
            renamed as nat == dup_count(s, i as nat),
            nxt == max + 1 + dup_count(s, i as nat),
            next_id == if nxt <= u64::MAX { nxt } else { u64::MAX as int },
            forall|x: u64| #[trigger]
                seen@.contains(x) <==> ((exists|j: int| 0 <= j < i && #[trigger] s[j].id == x) || (
                max < x && x < nxt)),
            forall|j: int| i <= j < n ==> #[trigger] blocks@[j] == s[j],
            forall|j: int| 0 <= j < i ==> renamed_block(s[j], #[trigger] blocks@[j], new_id(s, j)),
        decreases n - i,
    {
        proof {
            lemma_dup_count_le(s, i as nat);
        }
        let orig = blocks[i].id;
        if !contains_id(&seen, orig) {
            let ghost old_seen = seen@;
            seen.push(orig);
            proof {
                assert(!is_dup(s, i as int)) by {
                    if is_dup(s, i as int) {
                        let j = choose|j: int| 0 <= j < i && #[trigger] s[j].id == s[i as int].id;
                        assert(old_seen.contains(orig));
                    }
                }
                let b = blocks@[i as int];
                assert(b.task_ids@ =~= renamed_tasks(s[i as int].task_ids@, orig, b.id));
                assert forall|x: u64| #[trigger]
                    seen@.contains(x) <==> ((exists|j: int| 0 <= j < i + 1 && #[trigger] s[j].id == x)
                        || (max < x && x < nxt)) by {
                    lemma_push_contains(old_seen, orig, x);
                    if x == orig {
                        assert(s[i as int].id == x);
                    }
                    if exists|j: int| 0 <= j < i + 1 && #[trigger] s[j].id == x {
                        let j = choose|j: int| 0 <= j < i + 1 && #[trigger] s[j].id == x;
                        if j < i {
                            assert(old_seen.contains(x));
                        }
                    }
                }
            }
            i = i + 1;
            continue;
        }
        proof {
            assert(is_dup(s, i as int)) by {
                if !exists|j: int| 0 <= j < i && #[trigger] s[j].id == orig {
                    assert(!(max < orig && orig < nxt));
                }
            }
            lemma_dup_count_mono(s, i as nat, n as nat);
        }
        while contains_id(&seen, next_id)
            invariant
                next_id == nxt,
                nxt == max + 1 + dup_count(s, i as nat),
                nxt <= u64::MAX,
                forall|x: u64| #[trigger]
                    seen@.contains(x) <==> ((exists|j: int| 0 <= j < i && #[trigger] s[j].id == x)
                        || (max < x && x < nxt)),
                forall|j: int| 0 <= j < n ==> (#[trigger] s[j].id) as nat <= max,
                i < n,
                n == s.len(),
            decreases u64::MAX - next_id,
        {
            proof {
                if exists|j: int| 0 <= j < i && #[trigger] s[j].id == next_id {
                    let j = choose|j: int| 0 <= j < i && #[trigger] s[j].id == next_id;
                    assert(s[j].id as nat <= max);
                }
            }
            assert(false);
            next_id = next_id + 1;
            proof {
                nxt = nxt + 1;
            }
        }
        let tasks = rename_tasks(&blocks[i].task_ids, orig, next_id);
        let b = BlockIds { id: next_id, task_ids: tasks };
        blocks.set(i, b);
        let ghost old_seen = seen@;
        seen.push(next_id);
        proof {
            lemma_dup_count_le(s, (i + 1) as nat);
            assert(dup_count(s, (i + 1) as nat) == dup_count(s, i as nat) + 1);
        }
        renamed = renamed + 1;
        let ghost old_next = next_id;
        next_id = if next_id < u64::MAX {
            next_id + 1
        } else {
            next_id
        };
        proof {
            nxt = nxt + 1;
            assert forall|x: u64| #[trigger]
                seen@.contains(x) <==> ((exists|j: int| 0 <= j < i + 1 && #[trigger] s[j].id == x) || (
                max < x && x < nxt)) by {
                lemma_push_contains(old_seen, old_next, x);
                if exists|j: int| 0 <= j < i + 1 && #[trigger] s[j].id == x {
                    let j = choose|j: int| 0 <= j < i + 1 && #[trigger] s[j].id == x;
                    if j == i {
                        let j2 = choose|j2: int| 0 <= j2 < i && #[trigger] s[j2].id == s[i as int].id;
                        assert(s[j2].id == x);
                    }
                }
            }
            let nb = blocks@[i as int];
            assert(renamed_block(s[i as int], nb, new_id(s, i as int)));
        }
        i = i + 1;
    }
    renamed
}

/// After renaming, no two blocks share an id.
pub proof fn lemma_renamed_ids_distinct(s: Seq<BlockIds>, a: int, b: int)
    requires
        0 <= a < b < s.len(),
    ensures
        new_id(s, a) != new_id(s, b),
{
    lemma_max_bounds(s, s.len());
    lemma_dup_count_mono(s, a as nat, b as nat);
    if !is_dup(s, a) && !is_dup(s, b) {
        if s[a].id == s[b].id {
            assert(is_dup(s, b));
        }
    }
}

/// Which of the fields a scheduling block needs were found in it, in the
/// order they are looked up.
#[derive(Debug, Clone, Copy)]
pub struct BlockFieldsFound {
    pub block_id: bool,
    pub target: bool,
    pub coordinate: bool,
    pub ra: bool,
    pub dec: bool,
    pub constraints: bool,
    pub time_constraint: bool,
    pub duration: bool,
}

/// The error for the first missing field, or none when all were found.
pub open spec fn spec_missing_block_field(f: BlockFieldsFound) -> Option<Seq<char>> {
    if !f.block_id {
        Some("missing scheduling_block_id"@)
    } else if !f.target {
        Some("missing target"@)
    } else if !f.coordinate {
        Some(
            "missing target coordinate (expected target.position_.coord or target.position_.coordinate)"@,
        )
    } else if !f.ra {
        Some("missing ra_in_deg"@)
    } else if !f.dec {
        Some("missing dec_in_deg"@)
    } else if !f.constraints {
        Some("missing constraints_"@)
    } else if !f.time_constraint {
        Some("missing time_constraint_"@)
    } else if !f.duration {
        Some("missing requested_duration_sec"@)
    } else {
        None
    }
}

/// Why a scheduling block cannot be converted: its first missing field.
pub fn missing_block_field(f: BlockFieldsFound) -> (r: Option<&'static str>)
    ensures
        match spec_missing_block_field(f) {
            Some(m) => r is Some && r->Some_0@ == m,
            None => r is None,
        },
{
    if !f.block_id {
        Some("missing scheduling_block_id")
    } else if !f.target {
        Some("missing target")
    } else if !f.coordinate {
        Some(
            "missing target coordinate (expected target.position_.coord or target.position_.coordinate)",
        )
    } else if !f.ra {
        Some("missing ra_in_deg")
    } else if !f.dec {
        Some("missing dec_in_deg")
    } else if !f.constraints {
        Some("missing constraints_")
    } else if !f.time_constraint {
        Some("missing time_constraint_")
    } else if !f.duration {
        Some("missing requested_duration_sec")
    } else {
        None
    }
}

} // verus!
