//! Sets of sweep-axis values, kept in `BTreeSet`s and listed in increasing
//! order.
use std::collections::BTreeSet;
use vstd::prelude::*;
use vstd::std_specs::cmp::OrdSpec;
use vstd::std_specs::iter::IteratorSpec;

use crate::migrate::{strictly_increasing, AxisValue};

verus! {

broadcast use vstd::std_specs::btree::group_btree_axioms;

/// Adds a value to a set of `u32` axis values.
pub(crate) fn insert_u32(s: &mut BTreeSet<u32>, x: u32)
    ensures
        final(s)@ == old(s)@.insert(x),
{
    broadcast use vstd::laws_cmp::group_laws_cmp;

    assert(vstd::laws_cmp::obeys_cmp::<u32>());
    s.insert(x);
}

/// The values of a set of `u32` axis values, in increasing order.
pub(crate) fn sorted_u32(s: &BTreeSet<u32>) -> (v: Vec<u32>)
    ensures
        strictly_increasing(v@),
        forall|x: u32| #[trigger] v@.contains(x) <==> s@.contains(x),
{
    let mut v: Vec<u32> = Vec::new();
    for x in it: s.iter()
        invariant
            v@ == it.seq().take(it.index()).map_values(|r: &u32| *r),
            it.seq() == vstd::std_specs::btree::spec_btree_keys_iter(s).remaining(),
    {
        v.push(*x);
        proof {
            assert(v@ =~= it.seq().take(it.index() + 1).map_values(|r: &u32| *r));
        }
    }
    proof {
        let r = vstd::std_specs::btree::spec_btree_keys_iter(s).remaining();
        broadcast use vstd::laws_cmp::group_laws_cmp;

        assert(vstd::laws_cmp::obeys_cmp::<u32>());
        assert(vstd::laws_cmp::obeys_cmp::<&u32>());
        vstd::std_specs::btree::axiom_increasing_seq_meaning::<&u32>(r);
        assert(v@ =~= r.map_values(|x: &u32| *x));
        assert(r.unref() =~= r.map_values(|x: &u32| *x));
        assert(vstd::std_specs::btree::increasing_seq(r));
        assert forall|x: u32| #[trigger] v@.contains(x) <==> s@.contains(x) by {
            assert(r.unref().to_set().contains(x) <==> r.unref().contains(x));
        }
        assert forall|i: int, j: int| 0 <= i < j < v@.len() implies #[trigger] v@[i].rank()
            < #[trigger] v@[j].rank() by {
            assert(OrdSpec::cmp_spec(&r[i], &r[j]) is Less);
        }
    }
    v
}

/// Adds a value to a set of `usize` axis values.
pub(crate) fn insert_usize(s: &mut BTreeSet<usize>, x: usize)
    ensures
        final(s)@ == old(s)@.insert(x),
{
    broadcast use vstd::laws_cmp::group_laws_cmp;

    assert(vstd::laws_cmp::obeys_cmp::<usize>());
    s.insert(x);
}

/// The values of a set of `usize` axis values, in increasing order.
pub(crate) fn sorted_usize(s: &BTreeSet<usize>) -> (v: Vec<usize>)
    ensures
        strictly_increasing(v@),
        forall|x: usize| #[trigger] v@.contains(x) <==> s@.contains(x),
{
    let mut v: Vec<usize> = Vec::new();
    for x in it: s.iter()
        invariant
            v@ == it.seq().take(it.index()).map_values(|r: &usize| *r),
            it.seq() == vstd::std_specs::btree::spec_btree_keys_iter(s).remaining(),
    {
        v.push(*x);
        proof {
            assert(v@ =~= it.seq().take(it.index() + 1).map_values(|r: &usize| *r));
        }
    }
    proof {
        let r = vstd::std_specs::btree::spec_btree_keys_iter(s).remaining();
        broadcast use vstd::laws_cmp::group_laws_cmp;

        assert(vstd::laws_cmp::obeys_cmp::<usize>());
        assert(vstd::laws_cmp::obeys_cmp::<&usize>());
        vstd::std_specs::btree::axiom_increasing_seq_meaning::<&usize>(r);
        assert(v@ =~= r.map_values(|x: &usize| *x));
        assert(r.unref() =~= r.map_values(|x: &usize| *x));
        assert(vstd::std_specs::btree::increasing_seq(r));
        assert forall|x: usize| #[trigger] v@.contains(x) <==> s@.contains(x) by {
            assert(r.unref().to_set().contains(x) <==> r.unref().contains(x));
        }
        assert forall|i: int, j: int| 0 <= i < j < v@.len() implies #[trigger] v@[i].rank()
            < #[trigger] v@[j].rank() by {
            assert(OrdSpec::cmp_spec(&r[i], &r[j]) is Less);
        }
    }
    v
}

/// Adds a value to a set of `u64` axis values.
pub(crate) fn insert_u64(s: &mut BTreeSet<u64>, x: u64)
    ensures
        final(s)@ == old(s)@.insert(x),
{
    broadcast use vstd::laws_cmp::group_laws_cmp;

    assert(vstd::laws_cmp::obeys_cmp::<u64>());
    s.insert(x);
}

/// The values of a set of `u64` axis values, in increasing order.
pub(crate) fn sorted_u64(s: &BTreeSet<u64>) -> (v: Vec<u64>)
    ensures
        strictly_increasing(v@),
        forall|x: u64| #[trigger] v@.contains(x) <==> s@.contains(x),
{
    let mut v: Vec<u64> = Vec::new();
    for x in it: s.iter()
        invariant
            v@ == it.seq().take(it.index()).map_values(|r: &u64| *r),
            it.seq() == vstd::std_specs::btree::spec_btree_keys_iter(s).remaining(),
    {
        v.push(*x);
        proof {
            assert(v@ =~= it.seq().take(it.index() + 1).map_values(|r: &u64| *r));
        }
    }
    proof {
        let r = vstd::std_specs::btree::spec_btree_keys_iter(s).remaining();
        broadcast use vstd::laws_cmp::group_laws_cmp;

        assert(vstd::laws_cmp::obeys_cmp::<u64>());
        assert(vstd::laws_cmp::obeys_cmp::<&u64>());
        vstd::std_specs::btree::axiom_increasing_seq_meaning::<&u64>(r);
        assert(v@ =~= r.map_values(|x: &u64| *x));
        assert(r.unref() =~= r.map_values(|x: &u64| *x));
        assert(vstd::std_specs::btree::increasing_seq(r));
        assert forall|x: u64| #[trigger] v@.contains(x) <==> s@.contains(x) by {
            assert(r.unref().to_set().contains(x) <==> r.unref().contains(x));
        }
        assert forall|i: int, j: int| 0 <= i < j < v@.len() implies #[trigger] v@[i].rank()
            < #[trigger] v@[j].rank() by {
            assert(OrdSpec::cmp_spec(&r[i], &r[j]) is Less);
        }
    }
    v
}

} // verus!
