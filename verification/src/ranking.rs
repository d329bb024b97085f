//! Competition ranking of runs within a dataset.
//!
//! The runs of one dataset are listed best first; runs that score the same
//! share a rank, and the next run with a different score takes the rank of
//! its position (1, 1, 3, ...). How runs are compared is decided by the
//! caller, which hands over, for each run, whether it scores the same as the
//! run before it.
use vstd::prelude::*;

verus! {

/// The rank of the run at position `i`, given for each position whether
/// its run scores the same as the one before (the first entry is ignored).
pub open spec fn spec_rank(ties: Seq<bool>, i: int) -> int
    decreases i,
{
    if i <= 0 {
        1
    } else if ties[i] {
        spec_rank(ties, i - 1)
    } else {
        i + 1
    }
}

/// The competition rank of each run of a best-first list.
pub fn competition_ranks(ties: &Vec<bool>) -> (r: Vec<usize>)
    ensures
        r@.len() == ties@.len(),
        forall|i: int| 0 <= i < ties@.len() ==> #[trigger] r@[i] as int == spec_rank(ties@, i),
{
    let mut r: Vec<usize> = Vec::new();
    let mut current: usize = 1;
    let mut i: usize = 0;
    while i < ties.len()
        invariant
            i <= ties@.len(),
            r@.len() == i,
            forall|k: int| 0 <= k < i ==> #[trigger] r@[k] as int == spec_rank(ties@, k),
            i > 0 ==> current as int == spec_rank(ties@, i - 1),
            1 <= current <= i + 1,
        decreases ties@.len() - i,
    {
        proof {
            lemma_rank_bounds(ties@, i as int);
        }
        if i > 0 && !ties[i] {
            current = i + 1;
        }
        r.push(current);
        i = i + 1;
    }
    r
}

proof fn lemma_rank_bounds(ties: Seq<bool>, i: int)
    ensures
        1 <= spec_rank(ties, i),
        i >= 0 ==> spec_rank(ties, i) <= i + 1,
    decreases i,
{
    if i > 0 {
        lemma_rank_bounds(ties, i - 1);
    }
}

proof fn lemma_rank_monotone(ties: Seq<bool>, i: int, j: int)
    requires
        0 <= i <= j,
    ensures
        spec_rank(ties, i) <= spec_rank(ties, j),
    decreases j,
{
    if i < j {
        lemma_rank_monotone(ties, i, j - 1);
        lemma_rank_bounds(ties, j - 1);
    }
}

/// Ranks of a best-first list: the first run is ranked 1; a run never ranks
/// above its position; ranks never decrease down the list; and a run shares
/// the rank of the run before it exactly when the two score the same, the
/// rank otherwise being its position.
pub proof fn lemma_competition_ranks(ties: Seq<bool>, i: int, j: int)
    requires
        0 <= i <= j < ties.len(),
    ensures
        spec_rank(ties, 0) == 1,
        1 <= spec_rank(ties, i) <= i + 1,
        spec_rank(ties, i) <= spec_rank(ties, j),
        0 < j ==> (spec_rank(ties, j) == spec_rank(ties, j - 1) <==> ties[j]),
        0 < j && !ties[j] ==> spec_rank(ties, j) == j + 1,
{
    lemma_rank_bounds(ties, i);
    lemma_rank_monotone(ties, i, j);
    if 0 < j {
        lemma_rank_bounds(ties, j - 1);
    }
}

} // verus!
