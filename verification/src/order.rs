//! The order in which configurations of a sweep are enumerated: variant
//! first (EST, HAP, LST, multi-cursor), then the fields in declaration
//! order, each compared as an integer. Enumerations are strictly increasing,
//! so they hold no duplicates, and a set of configurations has exactly one
//! enumeration.
use vstd::prelude::*;

use crate::config::{FomKind, HapSurvivorMode, MultiCursorLayout, RunConfig};

verus! {

/// Lexicographic order on key sequences; a proper prefix comes first.
pub open spec fn lex_lt(a: Seq<u64>, b: Seq<u64>) -> bool
    decreases a.len(),
{
    if a.len() == 0 {
        b.len() > 0
    } else if b.len() == 0 {
        false
    } else if a[0] < b[0] {
        true
    } else if a[0] == b[0] {
        lex_lt(a.drop_first(), b.drop_first())
    } else {
        false
    }
}

pub proof fn lemma_lex_irreflexive(a: Seq<u64>)
    ensures
        !lex_lt(a, a),
    decreases a.len(),
{
    if a.len() > 0 {
        lemma_lex_irreflexive(a.drop_first());
    }
}

pub proof fn lemma_lex_transitive(a: Seq<u64>, b: Seq<u64>, c: Seq<u64>)
    requires
        lex_lt(a, b),
        lex_lt(b, c),
    ensures
        lex_lt(a, c),
    decreases a.len(),
{
    if a.len() > 0 && b.len() > 0 && c.len() > 0 {
        if a[0] == b[0] && b[0] == c[0] {
            lemma_lex_transitive(a.drop_first(), b.drop_first(), c.drop_first());
        }
    }
}

pub proof fn lemma_lex_total(a: Seq<u64>, b: Seq<u64>)
    requires
        a != b,
    ensures
        lex_lt(a, b) || lex_lt(b, a),
    decreases a.len(),
{
    if a.len() > 0 && b.len() > 0 && a[0] == b[0] {
        if a.drop_first() == b.drop_first() {
            assert(a =~= seq![a[0]] + a.drop_first());
            assert(b =~= seq![b[0]] + b.drop_first());
        }
        lemma_lex_total(a.drop_first(), b.drop_first());
    } else if a.len() == 0 && b.len() == 0 {
        assert(a =~= b);
    }
}

pub open spec fn fom_index(f: FomKind) -> u64 {
    match f {
        FomKind::SoftConstraint => 0,
        FomKind::FutureFlexibility => 1,
    }
}

pub open spec fn mode_index(m: HapSurvivorMode) -> u64 {
    match m {
        HapSurvivorMode::GreedyOne => 0,
        HapSurvivorMode::ElitistTopK => 1,
        HapSurvivorMode::ParetoFront => 2,
    }
}

pub open spec fn layout_index(l: MultiCursorLayout) -> u64 {
    match l {
        MultiCursorLayout::EstLstSplit => 0,
        MultiCursorLayout::StartMidForward => 1,
    }
}

/// The ordering key of a configuration.
pub open spec fn key(c: RunConfig) -> Seq<u64> {
    match c {
        RunConfig::Est(x) => seq![
            0u64,
            fom_index(x.fom),
            x.endangered_threshold as u64,
            x.k_beams as u64,
            x.branching_factor as u64,
        ],
        RunConfig::Hap(x) => seq![
            1u64,
            x.iota_max as u64,
            x.rho as u64,
            x.population_size as u64,
            mode_index(x.survivor_mode),
            x.survivor_cap as u64,
            x.seed,
        ],
        RunConfig::Lst(x) => seq![
            2u64,
            fom_index(x.fom),
            x.endangered_threshold as u64,
            x.k_beams as u64,
            x.branching_factor as u64,
        ],
        RunConfig::MultiCursor(x) => seq![
            3u64,
            fom_index(x.fom),
            x.endangered_threshold as u64,
            x.k_beams as u64,
            x.branching_factor as u64,
            layout_index(x.layout),
        ],
    }
}

pub open spec fn config_lt(a: RunConfig, b: RunConfig) -> bool {
    lex_lt(key(a), key(b))
}

pub proof fn lemma_key_injective(a: RunConfig, b: RunConfig)
    requires
        key(a) == key(b),
    ensures
        a == b,
{
    let ka = key(a);
    let kb = key(b);
    assert(ka[0] == kb[0]);
    match a {
        RunConfig::Est(x) => {
            if let RunConfig::Est(y) = b {
                assert(ka[1] == kb[1] && ka[2] == kb[2] && ka[3] == kb[3] && ka[4] == kb[4]);
            }
        },
        RunConfig::Hap(x) => {
            if let RunConfig::Hap(y) = b {
                assert(ka[1] == kb[1] && ka[2] == kb[2] && ka[3] == kb[3] && ka[4] == kb[4]
                    && ka[5] == kb[5] && ka[6] == kb[6]);
            }
        },
        RunConfig::Lst(x) => {
            if let RunConfig::Lst(y) = b {
                assert(ka[1] == kb[1] && ka[2] == kb[2] && ka[3] == kb[3] && ka[4] == kb[4]);
            }
        },
        RunConfig::MultiCursor(x) => {
            if let RunConfig::MultiCursor(y) = b {
                assert(ka[1] == kb[1] && ka[2] == kb[2] && ka[3] == kb[3] && ka[4] == kb[4]
                    && ka[5] == kb[5]);
            }
        },
    }
}

/// Two different configurations are ordered one way or the other.
pub proof fn lemma_config_total(a: RunConfig, b: RunConfig)
    requires
        a != b,
    ensures
        config_lt(a, b) || config_lt(b, a),
{
    if key(a) == key(b) {
        lemma_key_injective(a, b);
    }
    lemma_lex_total(key(a), key(b));
}

/// Strictly increasing: no duplicates, in enumeration order.
pub open spec fn strictly_sorted(s: Seq<RunConfig>) -> bool {
    forall|i: int, j: int| 0 <= i < j < s.len() ==> config_lt(#[trigger] s[i], #[trigger] s[j])
}

/// `s` enumerates exactly the configurations satisfying `p`, in order.
pub open spec fn enumerates(s: Seq<RunConfig>, p: spec_fn(RunConfig) -> bool) -> bool {
    &&& strictly_sorted(s)
    &&& forall|x: RunConfig| #[trigger] s.contains(x) <==> p(x)
}

/// The enumeration of the configurations satisfying `p`.
pub open spec fn enumeration(p: spec_fn(RunConfig) -> bool) -> Seq<RunConfig> {
    choose|s: Seq<RunConfig>| enumerates(s, p)
}

/// Two strictly increasing sequences with the same elements are equal.
pub proof fn lemma_sorted_unique(s1: Seq<RunConfig>, s2: Seq<RunConfig>)
    requires
        strictly_sorted(s1),
        strictly_sorted(s2),
        forall|x: RunConfig| s1.contains(x) <==> s2.contains(x),
    ensures
        s1 == s2,
    decreases s1.len(),
{
    if s1.len() == 0 {
        if s2.len() > 0 {
            assert(s2.contains(s2[0]));
        }
        assert(s1 =~= s2);
    } else {
        assert(s1.contains(s1[0]));
        let j = choose|j: int| 0 <= j < s2.len() && s2[j] == s1[0];
        assert(s2.contains(s2[0]));
        let i = choose|i: int| 0 <= i < s1.len() && s1[i] == s2[0];
        if j > 0 {
            assert(config_lt(s2[0], s2[j]));
            if i > 0 {
                assert(config_lt(s1[0], s1[i]));
                lemma_lex_transitive(key(s1[0]), key(s1[i]), key(s1[0]));
                lemma_lex_irreflexive(key(s1[0]));
            } else {
                lemma_lex_irreflexive(key(s2[0]));
            }
        }
        let t1 = s1.drop_first();
        let t2 = s2.drop_first();
        assert forall|x: RunConfig| t1.contains(x) <==> t2.contains(x) by {
            if t1.contains(x) {
                let a = choose|a: int| 0 <= a < t1.len() && t1[a] == x;
                assert(s1[a + 1] == x);
                assert(s1.contains(x));
                let b = choose|b: int| 0 <= b < s2.len() && s2[b] == x;
                if b == 0 {
                    assert(config_lt(s1[0], s1[a + 1]));
                    lemma_lex_irreflexive(key(x));
                }
                assert(t2[b - 1] == x);
            }
            if t2.contains(x) {
                let a = choose|a: int| 0 <= a < t2.len() && t2[a] == x;
                assert(s2[a + 1] == x);
                assert(s2.contains(x));
                let b = choose|b: int| 0 <= b < s1.len() && s1[b] == x;
                if b == 0 {
                    assert(config_lt(s2[0], s2[a + 1]));
                    lemma_lex_irreflexive(key(x));
                }
                assert(t1[b - 1] == x);
            }
        }
        assert(strictly_sorted(t1)) by {
            assert forall|a: int, b: int| 0 <= a < b < t1.len() implies config_lt(
                t1[a],
                t1[b],
            ) by {
                assert(t1[a] == s1[a + 1] && t1[b] == s1[b + 1]);
            }
        }
        assert(strictly_sorted(t2)) by {
            assert forall|a: int, b: int| 0 <= a < b < t2.len() implies config_lt(
                t2[a],
                t2[b],
            ) by {
                assert(t2[a] == s2[a + 1] && t2[b] == s2[b + 1]);
            }
        }
        lemma_sorted_unique(t1, t2);
        assert(s1 =~= seq![s1[0]] + t1);
        assert(s2 =~= seq![s2[0]] + t2);
    }
}

/// A sequence that enumerates `p` is the enumeration of `p`.
pub proof fn lemma_is_enumeration(s: Seq<RunConfig>, p: spec_fn(RunConfig) -> bool)
    requires
        enumerates(s, p),
    ensures
        enumeration(p) == s,
{
    let e = enumeration(p);
    assert(enumerates(e, p));
    assert forall|x: RunConfig| e.contains(x) <==> s.contains(x) by {
        assert(e.contains(x) <==> p(x));
        assert(s.contains(x) <==> p(x));
    }
    lemma_sorted_unique(e, s);
}

fn push_key_fields(k: &mut Vec<u64>, a: u64, b: u64, c: u64, d: u64)
    ensures
        final(k)@ == old(k)@.push(a).push(b).push(c).push(d),
{
    k.push(a);
    k.push(b);
    k.push(c);
    k.push(d);
}

fn fom_idx(f: FomKind) -> (i: u64)
    ensures
        i == fom_index(f),
{
    match f {
        FomKind::SoftConstraint => 0,
        FomKind::FutureFlexibility => 1,
    }
}

fn mode_idx(m: HapSurvivorMode) -> (i: u64)
    ensures
        i == mode_index(m),
{
    match m {
        HapSurvivorMode::GreedyOne => 0,
        HapSurvivorMode::ElitistTopK => 1,
        HapSurvivorMode::ParetoFront => 2,
    }
}

fn layout_idx(l: MultiCursorLayout) -> (i: u64)
    ensures
        i == layout_index(l),
{
    match l {
        MultiCursorLayout::EstLstSplit => 0,
        MultiCursorLayout::StartMidForward => 1,
    }
}

/// The ordering key of `c`.
pub fn key_of(c: &RunConfig) -> (k: Vec<u64>)
    ensures
        k@ == key(*c),
{
    let mut k: Vec<u64> = Vec::new();
    match *c {
        RunConfig::Est(x) => {
            k.push(0);
            push_key_fields(
                &mut k,
                fom_idx(x.fom),
                x.endangered_threshold as u64,
                x.k_beams as u64,
                x.branching_factor as u64,
            );
        },
        RunConfig::Hap(x) => {
            k.push(1);
            push_key_fields(
                &mut k,
                x.iota_max as u64,
                x.rho as u64,
                x.population_size as u64,
                mode_idx(x.survivor_mode),
            );
            k.push(x.survivor_cap as u64);
            k.push(x.seed);
        },
        RunConfig::Lst(x) => {
            k.push(2);
            push_key_fields(
                &mut k,
                fom_idx(x.fom),
                x.endangered_threshold as u64,
                x.k_beams as u64,
                x.branching_factor as u64,
            );
        },
        RunConfig::MultiCursor(x) => {
            k.push(3);
            push_key_fields(
                &mut k,
                fom_idx(x.fom),
                x.endangered_threshold as u64,
                x.k_beams as u64,
                x.branching_factor as u64,
            );
            k.push(layout_idx(x.layout));
        },
    }
    proof {
        assert(k@ =~= key(*c));
    }
    k
}

fn lex_lt_exec(a: &Vec<u64>, b: &Vec<u64>) -> (r: bool)
    ensures
        r == lex_lt(a@, b@),
{
    let mut i: usize = 0;
    assert(a@.skip(0) =~= a@);
    assert(b@.skip(0) =~= b@);
    while i < a.len() && i < b.len()
        invariant
            i <= a.len(),
            i <= b.len(),
            lex_lt(a@, b@) == lex_lt(a@.skip(i as int), b@.skip(i as int)),
        decreases a.len() - i,
    {
        if a[i] < b[i] {
            return true;
        }
        if a[i] > b[i] {
            return false;
        }
        assert(a@.skip(i as int).drop_first() =~= a@.skip(i + 1));
        assert(b@.skip(i as int).drop_first() =~= b@.skip(i + 1));
        i = i + 1;
    }
    i == a.len() && i < b.len()
}

/// Whether `a` comes before `b` in enumeration order.
pub fn config_before(a: &RunConfig, b: &RunConfig) -> (r: bool)
    ensures
        r == config_lt(*a, *b),
{
    let ka = key_of(a);
    let kb = key_of(b);
    lex_lt_exec(&ka, &kb)
}

/// Adds `c` to a strictly increasing vector, keeping it strictly
/// increasing; a configuration already present is not added again.
pub fn insert_sorted(v: &mut Vec<RunConfig>, c: RunConfig)
    requires
        strictly_sorted(old(v)@),
    ensures
        strictly_sorted(final(v)@),
        forall|x: RunConfig| #[trigger]
            final(v)@.contains(x) <==> (old(v)@.contains(x) || x == c),
{
    let ghost s = v@;
    let mut i: usize = 0;
    while i < v.len() && config_before(&v[i], &c)
        invariant
            v@ == s,
            i <= v.len(),
            forall|t: int| 0 <= t < i ==> config_lt(#[trigger] s[t], c),
        decreases v.len() - i,
    {
        i = i + 1;
    }
    if i < v.len() && v[i] == c {
        assert forall|x: RunConfig| #[trigger] v@.contains(x) <==> (s.contains(x) || x == c) by {
            if x == c {
                assert(v@[i as int] == c);
            }
        }
        return ;
    }
    proof {
        if i < s.len() {
            assert(!config_lt(s[i as int], c));
            lemma_config_total(s[i as int], c);
            assert(config_lt(c, s[i as int]));
        }
    }
    v.insert(i, c);
    proof {
        let n = v@;
        assert(n == s.insert(i as int, c));
        assert forall|a: int, b: int| 0 <= a < b < n.len() implies config_lt(n[a], n[b]) by {
            if b < i {
                assert(n[a] == s[a] && n[b] == s[b]);
            } else if b == i {
                assert(n[a] == s[a]);
            } else if a == i {
                assert(n[b] == s[b - 1]);
                if b - 1 > i {
                    assert(config_lt(s[i as int], s[b - 1]));
                    lemma_lex_transitive(key(c), key(s[i as int]), key(s[b - 1]));
                }
            } else if a < i {
                assert(n[a] == s[a] && n[b] == s[b - 1]);
                if b - 1 > i {
                    assert(config_lt(s[a], s[b - 1]));
                } else {
                    assert(config_lt(s[a], s[b - 1]));
                }
            } else {
                assert(n[a] == s[a - 1] && n[b] == s[b - 1]);
            }
        }
        assert forall|x: RunConfig| #[trigger] n.contains(x) <==> (s.contains(x) || x == c) by {
            if n.contains(x) {
                let t = choose|t: int| 0 <= t < n.len() && n[t] == x;
                if t < i {
                    assert(s[t] == x);
                } else if t > i {
                    assert(s[t - 1] == x);
                }
            }
            if s.contains(x) {
                let t = choose|t: int| 0 <= t < s.len() && s[t] == x;
                if t < i {
                    assert(n[t] == x);
                } else {
                    assert(n[t + 1] == x);
                }
            }
            if x == c {
                assert(n[i as int] == c);
            }
        }
    }
}

} // verus!
