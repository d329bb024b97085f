//! Expansion of one sweep block into its configurations.
//!
//! A sweep block lists values per axis; an empty axis stands for the
//! default value of that axis. The configurations of a block are all
//! combinations of the axis values, without duplicates, in enumeration
//! order (see `order`).
use vstd::prelude::*;

use crate::config::{
    EstRunConfig, FomKind, HapRunConfig, HapSurvivorMode, LstRunConfig, MultiCursorLayout,
    MultiCursorRunConfig, RunConfig,
};
use crate::order::{enumerates, enumeration, insert_sorted, lemma_is_enumeration, strictly_sorted};
use crate::config::{EstSweepAxes, HapSweepAxes, MultiCursorSweepAxes};
use crate::spec::AlgorithmSweep;

verus! {

/// `values` when it is not empty, otherwise the single value `default`.
pub open spec fn or_default<T>(values: Seq<T>, default: T) -> Seq<T> {
    if values.len() == 0 {
        seq![default]
    } else {
        values
    }
}

/// Returns `values` when non-empty, otherwise a one-element vector holding
/// `default`.
pub fn pick_or_default<T: Copy>(values: &Vec<T>, default: T) -> (r: Vec<T>)
    ensures
        r@ == or_default(values@, default),
{
    let mut r: Vec<T> = Vec::new();
    if values.len() == 0 {
        r.push(default);
        proof {
            assert(r@ =~= seq![default]);
        }
        return r;
    }
    let mut i: usize = 0;
    while i < values.len()
        invariant
            i <= values.len(),
            r@ == values@.take(i as int),
        decreases values.len() - i,
    {
        r.push(values[i]);
        i = i + 1;
        proof {
            assert(r@ =~= values@.take(i as int));
        }
    }
    proof {
        assert(values@.take(values@.len() as int) =~= values@);
    }
    r
}

proof fn lemma_take_contains<T>(s: Seq<T>, j: int, x: T)
    requires
        0 <= j < s.len(),
    ensures
        s.take(j + 1).contains(x) <==> (s.take(j).contains(x) || x == s[j]),
{
    if s.take(j + 1).contains(x) {
        let t = choose|t: int| 0 <= t < j + 1 && #[trigger] s.take(j + 1)[t] == x;
        if t < j {
            assert(s.take(j)[t] == x);
        }
    }
    if s.take(j).contains(x) {
        let t = choose|t: int| 0 <= t < j && #[trigger] s.take(j)[t] == x;
        assert(s.take(j + 1)[t] == x);
    }
    if x == s[j] {
        assert(s.take(j + 1)[j] == x);
    }
}

proof fn lemma_take_all<T>(s: Seq<T>)
    ensures
        s.take(s.len() as int) == s,
{
    assert(s.take(s.len() as int) =~= s);
}

proof fn lemma_single_contains<T>(a: T, x: T)
    ensures
        seq![a].contains(x) <==> x == a,
{
    if x == a {
        assert(seq![a][0] == x);
    }
}

/// Which single-cursor-style configuration a beam combination becomes.
#[derive(Debug, Clone, Copy, PartialEq, Eq, Structural)]
pub enum BeamShape {
    Est,
    Lst,
    Multi(MultiCursorLayout),
}

pub open spec fn beam_config(s: BeamShape, f: FomKind, e: u32, k: usize, b: usize) -> RunConfig {
    match s {
        BeamShape::Est => RunConfig::Est(
            EstRunConfig { fom: f, endangered_threshold: e, k_beams: k, branching_factor: b },
        ),
        BeamShape::Lst => RunConfig::Lst(
            LstRunConfig { fom: f, endangered_threshold: e, k_beams: k, branching_factor: b },
        ),
        BeamShape::Multi(l) => RunConfig::MultiCursor(
            MultiCursorRunConfig {
                fom: f,
                endangered_threshold: e,
                k_beams: k,
                branching_factor: b,
                layout: l,
            },
        ),
    }
}

/// The shape and beam axes of a configuration, when it has them.
pub open spec fn beam_parts(x: RunConfig) -> Option<(BeamShape, FomKind, u32, usize, usize)> {
    match x {
        RunConfig::Est(c) => Some(
            (BeamShape::Est, c.fom, c.endangered_threshold, c.k_beams, c.branching_factor),
        ),
        RunConfig::Lst(c) => Some(
            (BeamShape::Lst, c.fom, c.endangered_threshold, c.k_beams, c.branching_factor),
        ),
        RunConfig::MultiCursor(c) => Some(
            (
                BeamShape::Multi(c.layout),
                c.fom,
                c.endangered_threshold,
                c.k_beams,
                c.branching_factor,
            ),
        ),
        RunConfig::Hap(_) => None,
    }
}

/// `x` has shape `s` and each beam axis value is among the given values.
pub open spec fn beam_in(
    x: RunConfig,
    s: BeamShape,
    fs: Seq<FomKind>,
    es: Seq<u32>,
    ks: Seq<usize>,
    bs: Seq<usize>,
) -> bool {
    match beam_parts(x) {
        Some(p) => p.0 == s && fs.contains(p.1) && es.contains(p.2) && ks.contains(p.3)
            && bs.contains(p.4),
        None => false,
    }
}

/// `x` is a multi-cursor configuration whose layout and beam axes are among
/// the given values.
pub open spec fn multi_in(
    x: RunConfig,
    ls: Seq<MultiCursorLayout>,
    fs: Seq<FomKind>,
    es: Seq<u32>,
    ks: Seq<usize>,
    bs: Seq<usize>,
) -> bool {
    match x {
        RunConfig::MultiCursor(c) => ls.contains(c.layout) && fs.contains(c.fom) && es.contains(
            c.endangered_threshold,
        ) && ks.contains(c.k_beams) && bs.contains(c.branching_factor),
        _ => false,
    }
}

/// `x` is a HAP configuration whose axes are among the given values.
pub open spec fn hap_in(
    x: RunConfig,
    is: Seq<usize>,
    rs: Seq<usize>,
    ps: Seq<usize>,
    ms: Seq<HapSurvivorMode>,
    cs: Seq<usize>,
    ss: Seq<u64>,
) -> bool {
    match x {
        RunConfig::Hap(c) => is.contains(c.iota_max) && rs.contains(c.rho) && ps.contains(
            c.population_size,
        ) && ms.contains(c.survivor_mode) && cs.contains(c.survivor_cap) && ss.contains(c.seed),
        _ => false,
    }
}

fn make_beam(s: BeamShape, f: FomKind, e: u32, k: usize, b: usize) -> (c: RunConfig)
    ensures
        c == beam_config(s, f, e, k, b),
{
    match s {
        BeamShape::Est => RunConfig::Est(
            EstRunConfig { fom: f, endangered_threshold: e, k_beams: k, branching_factor: b },
        ),
        BeamShape::Lst => RunConfig::Lst(
            LstRunConfig { fom: f, endangered_threshold: e, k_beams: k, branching_factor: b },
        ),
        BeamShape::Multi(l) => RunConfig::MultiCursor(
            MultiCursorRunConfig {
                fom: f,
                endangered_threshold: e,
                k_beams: k,
                branching_factor: b,
                layout: l,
            },
        ),
    }
}

fn add_branching(
    out: &mut Vec<RunConfig>,
    s: BeamShape,
    f: FomKind,
    e: u32,
    k: usize,
    bs: &Vec<usize>,
)
    requires
        strictly_sorted(old(out)@),
    ensures
        strictly_sorted(final(out)@),
        forall|x: RunConfig| #[trigger]
            final(out)@.contains(x) <==> (old(out)@.contains(x) || beam_in(
                x,
                s,
                seq![f],
                seq![e],
                seq![k],
                bs@,
            )),
{
    let ghost s0 = out@;
    let mut j: usize = 0;
    while j < bs.len()
        invariant
            j <= bs.len(),
            strictly_sorted(out@),
            forall|x: RunConfig| #[trigger]
                out@.contains(x) <==> (s0.contains(x) || beam_in(
                    x,
                    s,
                    seq![f],
                    seq![e],
                    seq![k],
                    bs@.take(j as int),
                )),
        decreases bs.len() - j,
    {
        let c = make_beam(s, f, e, k, bs[j]);
        let ghost before = out@;
        insert_sorted(out, c);
        proof {
            assert forall|x: RunConfig| #[trigger]
                out@.contains(x) <==> (s0.contains(x) || beam_in(
                    x,
                    s,
                    seq![f],
                    seq![e],
                    seq![k],
                    bs@.take(j + 1),
                )) by {
                assert(out@.contains(x) <==> (before.contains(x) || x == c));
                if let Some(p) = beam_parts(x) {
                    lemma_take_contains(bs@, j as int, p.4);
                    lemma_single_contains(f, p.1);
                    lemma_single_contains(e, p.2);
                    lemma_single_contains(k, p.3);
                }
            }
        }
        j = j + 1;
    }
    proof {
        lemma_take_all(bs@);
    }
}

fn add_beams(
    out: &mut Vec<RunConfig>,
    s: BeamShape,
    f: FomKind,
    e: u32,
    ks: &Vec<usize>,
    bs: &Vec<usize>,
)
    requires
        strictly_sorted(old(out)@),
    ensures
        strictly_sorted(final(out)@),
        forall|x: RunConfig| #[trigger]
            final(out)@.contains(x) <==> (old(out)@.contains(x) || beam_in(
                x,
                s,
                seq![f],
                seq![e],
                ks@,
                bs@,
            )),
{
    let ghost s0 = out@;
    let mut j: usize = 0;
    while j < ks.len()
        invariant
            j <= ks.len(),
            strictly_sorted(out@),
            forall|x: RunConfig| #[trigger]
                out@.contains(x) <==> (s0.contains(x) || beam_in(
                    x,
                    s,
                    seq![f],
                    seq![e],
                    ks@.take(j as int),
                    bs@,
                )),
        decreases ks.len() - j,
    {
        let ghost before = out@;
        add_branching(out, s, f, e, ks[j], bs);
        proof {
            assert forall|x: RunConfig| #[trigger]
                out@.contains(x) <==> (s0.contains(x) || beam_in(
                    x,
                    s,
                    seq![f],
                    seq![e],
                    ks@.take(j + 1),
                    bs@,
                )) by {
                if let Some(p) = beam_parts(x) {
                    lemma_take_contains(ks@, j as int, p.3);
                    lemma_single_contains(ks@[j as int], p.3);
                }
            }
        }
        j = j + 1;
    }
    proof {
        lemma_take_all(ks@);
    }
}

fn add_thresholds(
    out: &mut Vec<RunConfig>,
    s: BeamShape,
    f: FomKind,
    es: &Vec<u32>,
    ks: &Vec<usize>,
    bs: &Vec<usize>,
)
    requires
        strictly_sorted(old(out)@),
    ensures
        strictly_sorted(final(out)@),
        forall|x: RunConfig| #[trigger]
            final(out)@.contains(x) <==> (old(out)@.contains(x) || beam_in(
                x,
                s,
                seq![f],
                es@,
                ks@,
                bs@,
            )),
{
    let ghost s0 = out@;
    let mut j: usize = 0;
    while j < es.len()
        invariant
            j <= es.len(),
            strictly_sorted(out@),
            forall|x: RunConfig| #[trigger]
                out@.contains(x) <==> (s0.contains(x) || beam_in(
                    x,
                    s,
                    seq![f],
                    es@.take(j as int),
                    ks@,
                    bs@,
                )),
        decreases es.len() - j,
    {
        add_beams(out, s, f, es[j], ks, bs);
        proof {
            assert forall|x: RunConfig| #[trigger]
                out@.contains(x) <==> (s0.contains(x) || beam_in(
                    x,
                    s,
                    seq![f],
                    es@.take(j + 1),
                    ks@,
                    bs@,
                )) by {
                if let Some(p) = beam_parts(x) {
                    lemma_take_contains(es@, j as int, p.2);
                    lemma_single_contains(es@[j as int], p.2);
                }
            }
        }
        j = j + 1;
    }
    proof {
        lemma_take_all(es@);
    }
}

fn add_foms(
    out: &mut Vec<RunConfig>,
    s: BeamShape,
    fs: &Vec<FomKind>,
    es: &Vec<u32>,
    ks: &Vec<usize>,
    bs: &Vec<usize>,
)
    requires
        strictly_sorted(old(out)@),
    ensures
        strictly_sorted(final(out)@),
        forall|x: RunConfig| #[trigger]
            final(out)@.contains(x) <==> (old(out)@.contains(x) || beam_in(
                x,
                s,
                fs@,
                es@,
                ks@,
                bs@,
            )),
{
    let ghost s0 = out@;
    let mut j: usize = 0;
    while j < fs.len()
        invariant
            j <= fs.len(),
            strictly_sorted(out@),
            forall|x: RunConfig| #[trigger]
                out@.contains(x) <==> (s0.contains(x) || beam_in(
                    x,
                    s,
                    fs@.take(j as int),
                    es@,
                    ks@,
                    bs@,
                )),
        decreases fs.len() - j,
    {
        add_thresholds(out, s, fs[j], es, ks, bs);
        proof {
            assert forall|x: RunConfig| #[trigger]
                out@.contains(x) <==> (s0.contains(x) || beam_in(
                    x,
                    s,
                    fs@.take(j + 1),
                    es@,
                    ks@,
                    bs@,
                )) by {
                if let Some(p) = beam_parts(x) {
                    lemma_take_contains(fs@, j as int, p.1);
                    lemma_single_contains(fs@[j as int], p.1);
                }
            }
        }
        j = j + 1;
    }
    proof {
        lemma_take_all(fs@);
    }
}

fn add_layouts(
    out: &mut Vec<RunConfig>,
    ls: &Vec<MultiCursorLayout>,
    fs: &Vec<FomKind>,
    es: &Vec<u32>,
    ks: &Vec<usize>,
    bs: &Vec<usize>,
)
    requires
        strictly_sorted(old(out)@),
    ensures
        strictly_sorted(final(out)@),
        forall|x: RunConfig| #[trigger]
            final(out)@.contains(x) <==> (old(out)@.contains(x) || multi_in(
                x,
                ls@,
                fs@,
                es@,
                ks@,
                bs@,
            )),
{
    let ghost s0 = out@;
    let mut j: usize = 0;
    while j < ls.len()
        invariant
            j <= ls.len(),
            strictly_sorted(out@),
            forall|x: RunConfig| #[trigger]
                out@.contains(x) <==> (s0.contains(x) || multi_in(
                    x,
                    ls@.take(j as int),
                    fs@,
                    es@,
                    ks@,
                    bs@,
                )),
        decreases ls.len() - j,
    {
        add_foms(out, BeamShape::Multi(ls[j]), fs, es, ks, bs);
        proof {
            assert forall|x: RunConfig| #[trigger]
                out@.contains(x) <==> (s0.contains(x) || multi_in(
                    x,
                    ls@.take(j + 1),
                    fs@,
                    es@,
                    ks@,
                    bs@,
                )) by {
                if let RunConfig::MultiCursor(c) = x {
                    lemma_take_contains(ls@, j as int, c.layout);
                }
            }
        }
        j = j + 1;
    }
    proof {
        lemma_take_all(ls@);
    }
}

fn add_seeds(
    out: &mut Vec<RunConfig>,
    i: usize,
    r: usize,
    p: usize,
    m: HapSurvivorMode,
    c: usize,
    ss: &Vec<u64>,
)
    requires
        strictly_sorted(old(out)@),
    ensures
        strictly_sorted(final(out)@),
        forall|x: RunConfig| #[trigger]
            final(out)@.contains(x) <==> (old(out)@.contains(x) || hap_in(
                x,
                seq![i],
                seq![r],
                seq![p],
                seq![m],
                seq![c],
                ss@,
            )),
{
    let ghost s0 = out@;
    let mut j: usize = 0;
    while j < ss.len()
        invariant
            j <= ss.len(),
            strictly_sorted(out@),
            forall|x: RunConfig| #[trigger]
                out@.contains(x) <==> (s0.contains(x) || hap_in(
                    x,
                    seq![i],
                    seq![r],
                    seq![p],
                    seq![m],
                    seq![c],
                    ss@.take(j as int),
                )),
        decreases ss.len() - j,
    {
        let cfg = RunConfig::Hap(
            HapRunConfig {
                iota_max: i,
                rho: r,
                population_size: p,
                survivor_mode: m,
                survivor_cap: c,
                seed: ss[j],
            },
        );
        let ghost before = out@;
        insert_sorted(out, cfg);
        proof {
            assert forall|x: RunConfig| #[trigger]
                out@.contains(x) <==> (s0.contains(x) || hap_in(
                    x,
                    seq![i],
                    seq![r],
                    seq![p],
                    seq![m],
                    seq![c],
                    ss@.take(j + 1),
                )) by {
                assert(out@.contains(x) <==> (before.contains(x) || x == cfg));
                if let RunConfig::Hap(h) = x {
                    lemma_take_contains(ss@, j as int, h.seed);
                    lemma_single_contains(i, h.iota_max);
                    lemma_single_contains(r, h.rho);
                    lemma_single_contains(p, h.population_size);
                    lemma_single_contains(m, h.survivor_mode);
                    lemma_single_contains(c, h.survivor_cap);
                }
            }
        }
        j = j + 1;
    }
    proof {
        lemma_take_all(ss@);
    }
}

fn add_caps(
    out: &mut Vec<RunConfig>,
    i: usize,
    r: usize,
    p: usize,
    m: HapSurvivorMode,
    cs: &Vec<usize>,
    ss: &Vec<u64>,
)
    requires
        strictly_sorted(old(out)@),
    ensures
        strictly_sorted(final(out)@),
        forall|x: RunConfig| #[trigger]
            final(out)@.contains(x) <==> (old(out)@.contains(x) || hap_in(
                x,
                seq![i],
                seq![r],
                seq![p],
                seq![m],
                cs@,
                ss@,
            )),
{
    let ghost s0 = out@;
    let mut j: usize = 0;
    while j < cs.len()
        invariant
            j <= cs.len(),
            strictly_sorted(out@),
            forall|x: RunConfig| #[trigger]
                out@.contains(x) <==> (s0.contains(x) || hap_in(
                    x,
                    seq![i],
                    seq![r],
                    seq![p],
                    seq![m],
                    cs@.take(j as int),
                    ss@,
                )),
        decreases cs.len() - j,
    {
        add_seeds(out, i, r, p, m, cs[j], ss);
        proof {
            assert forall|x: RunConfig| #[trigger]
                out@.contains(x) <==> (s0.contains(x) || hap_in(
                    x,
                    seq![i],
                    seq![r],
                    seq![p],
                    seq![m],
                    cs@.take(j + 1),
                    ss@,
                )) by {
                if let RunConfig::Hap(h) = x {
                    lemma_take_contains(cs@, j as int, h.survivor_cap);
                    lemma_single_contains(cs@[j as int], h.survivor_cap);
                }
            }
        }
        j = j + 1;
    }
    proof {
        lemma_take_all(cs@);
    }
}

fn add_modes(
    out: &mut Vec<RunConfig>,
    i: usize,
    r: usize,
    p: usize,
    ms: &Vec<HapSurvivorMode>,
    cs: &Vec<usize>,
    ss: &Vec<u64>,
)
    requires
        strictly_sorted(old(out)@),
    ensures
        strictly_sorted(final(out)@),
        forall|x: RunConfig| #[trigger]
            final(out)@.contains(x) <==> (old(out)@.contains(x) || hap_in(
                x,
                seq![i],
                seq![r],
                seq![p],
                ms@,
                cs@,
                ss@,
            )),
{
    let ghost s0 = out@;
    let mut j: usize = 0;
    while j < ms.len()
        invariant
            j <= ms.len(),
            strictly_sorted(out@),
            forall|x: RunConfig| #[trigger]
                out@.contains(x) <==> (s0.contains(x) || hap_in(
                    x,
                    seq![i],
                    seq![r],
                    seq![p],
                    ms@.take(j as int),
                    cs@,
                    ss@,
                )),
        decreases ms.len() - j,
    {
        add_caps(out, i, r, p, ms[j], cs, ss);
        proof {
            assert forall|x: RunConfig| #[trigger]
                out@.contains(x) <==> (s0.contains(x) || hap_in(
                    x,
                    seq![i],
                    seq![r],
                    seq![p],
                    ms@.take(j + 1),
                    cs@,
                    ss@,
                )) by {
                if let RunConfig::Hap(h) = x {
                    lemma_take_contains(ms@, j as int, h.survivor_mode);
                    lemma_single_contains(ms@[j as int], h.survivor_mode);
                }
            }
        }
        j = j + 1;
    }
    proof {
        lemma_take_all(ms@);
    }
}

fn add_populations(
    out: &mut Vec<RunConfig>,
    i: usize,
    r: usize,
    ps: &Vec<usize>,
    ms: &Vec<HapSurvivorMode>,
    cs: &Vec<usize>,
    ss: &Vec<u64>,
)
    requires
        strictly_sorted(old(out)@),
    ensures
        strictly_sorted(final(out)@),
        forall|x: RunConfig| #[trigger]
            final(out)@.contains(x) <==> (old(out)@.contains(x) || hap_in(
                x,
                seq![i],
                seq![r],
                ps@,
                ms@,
                cs@,
                ss@,
            )),
{
    let ghost s0 = out@;
    let mut j: usize = 0;
    while j < ps.len()
        invariant
            j <= ps.len(),
            strictly_sorted(out@),
            forall|x: RunConfig| #[trigger]
                out@.contains(x) <==> (s0.contains(x) || hap_in(
                    x,
                    seq![i],
                    seq![r],
                    ps@.take(j as int),
                    ms@,
                    cs@,
                    ss@,
                )),
        decreases ps.len() - j,
    {
        add_modes(out, i, r, ps[j], ms, cs, ss);
        proof {
            assert forall|x: RunConfig| #[trigger]
                out@.contains(x) <==> (s0.contains(x) || hap_in(
                    x,
                    seq![i],
                    seq![r],
                    ps@.take(j + 1),
                    ms@,
                    cs@,
                    ss@,
                )) by {
                if let RunConfig::Hap(h) = x {
                    lemma_take_contains(ps@, j as int, h.population_size);
                    lemma_single_contains(ps@[j as int], h.population_size);
                }
            }
        }
        j = j + 1;
    }
    proof {
        lemma_take_all(ps@);
    }
}

fn add_rhos(
    out: &mut Vec<RunConfig>,
    i: usize,
    rs: &Vec<usize>,
    ps: &Vec<usize>,
    ms: &Vec<HapSurvivorMode>,
    cs: &Vec<usize>,
    ss: &Vec<u64>,
)
    requires
        strictly_sorted(old(out)@),
    ensures
        strictly_sorted(final(out)@),
        forall|x: RunConfig| #[trigger]
            final(out)@.contains(x) <==> (old(out)@.contains(x) || hap_in(
                x,
                seq![i],
                rs@,
                ps@,
                ms@,
                cs@,
                ss@,
            )),
{
    let ghost s0 = out@;
    let mut j: usize = 0;
    while j < rs.len()
        invariant
            j <= rs.len(),
            strictly_sorted(out@),
            forall|x: RunConfig| #[trigger]
                out@.contains(x) <==> (s0.contains(x) || hap_in(
                    x,
                    seq![i],
                    rs@.take(j as int),
                    ps@,
                    ms@,
                    cs@,
                    ss@,
                )),
        decreases rs.len() - j,
    {
        add_populations(out, i, rs[j], ps, ms, cs, ss);
        proof {
            assert forall|x: RunConfig| #[trigger]
                out@.contains(x) <==> (s0.contains(x) || hap_in(
                    x,
                    seq![i],
                    rs@.take(j + 1),
                    ps@,
                    ms@,
                    cs@,
                    ss@,
                )) by {
                if let RunConfig::Hap(h) = x {
                    lemma_take_contains(rs@, j as int, h.rho);
                    lemma_single_contains(rs@[j as int], h.rho);
                }
            }
        }
        j = j + 1;
    }
    proof {
        lemma_take_all(rs@);
    }
}

fn add_iotas(
    out: &mut Vec<RunConfig>,
    is: &Vec<usize>,
    rs: &Vec<usize>,
    ps: &Vec<usize>,
    ms: &Vec<HapSurvivorMode>,
    cs: &Vec<usize>,
    ss: &Vec<u64>,
)
    requires
        strictly_sorted(old(out)@),
    ensures
        strictly_sorted(final(out)@),
        forall|x: RunConfig| #[trigger]
            final(out)@.contains(x) <==> (old(out)@.contains(x) || hap_in(
                x,
                is@,
                rs@,
                ps@,
                ms@,
                cs@,
                ss@,
            )),
{
    let ghost s0 = out@;
    let mut j: usize = 0;
    while j < is.len()
        invariant
            j <= is.len(),
            strictly_sorted(out@),
            forall|x: RunConfig| #[trigger]
                out@.contains(x) <==> (s0.contains(x) || hap_in(
                    x,
                    is@.take(j as int),
                    rs@,
                    ps@,
                    ms@,
                    cs@,
                    ss@,
                )),
        decreases is.len() - j,
    {
        add_rhos(out, is[j], rs, ps, ms, cs, ss);
        proof {
            assert forall|x: RunConfig| #[trigger]
                out@.contains(x) <==> (s0.contains(x) || hap_in(
                    x,
                    is@.take(j + 1),
                    rs@,
                    ps@,
                    ms@,
                    cs@,
                    ss@,
                )) by {
                if let RunConfig::Hap(h) = x {
                    lemma_take_contains(is@, j as int, h.iota_max);
                    lemma_single_contains(is@[j as int], h.iota_max);
                }
            }
        }
        j = j + 1;
    }
    proof {
        lemma_take_all(is@);
    }
}

/// Whether `x` is one of the combinations of the (defaulted) axes of `sw`.
pub open spec fn in_sweep(sw: AlgorithmSweep, x: RunConfig) -> bool {
    match sw {
        AlgorithmSweep::Est { axes } => beam_in(
            x,
            BeamShape::Est,
            or_default(axes.foms@, FomKind::SoftConstraint),
            or_default(axes.endangered_thresholds@, 1u32),
            or_default(axes.k_beams@, 1usize),
            or_default(axes.branching_factors@, 1usize),
        ),
        AlgorithmSweep::Lst { axes } => beam_in(
            x,
            BeamShape::Lst,
            or_default(axes.foms@, FomKind::SoftConstraint),
            or_default(axes.endangered_thresholds@, 1u32),
            or_default(axes.k_beams@, 1usize),
            or_default(axes.branching_factors@, 1usize),
        ),
        AlgorithmSweep::MultiCursor { axes } => multi_in(
            x,
            or_default(axes.layouts@, MultiCursorLayout::EstLstSplit),
            or_default(axes.foms@, FomKind::SoftConstraint),
            or_default(axes.endangered_thresholds@, 1u32),
            or_default(axes.k_beams@, 1usize),
            or_default(axes.branching_factors@, 1usize),
        ),
        AlgorithmSweep::Hap { axes } => hap_in(
            x,
            or_default(axes.iota_max_values@, 128usize),
            or_default(axes.rho_values@, 3usize),
            or_default(axes.population_sizes@, 4usize),
            or_default(axes.survivor_modes@, HapSurvivorMode::ElitistTopK),
            or_default(axes.survivor_caps@, 4usize),
            or_default(axes.seeds@, 0u64),
        ),
    }
}

pub open spec fn sweep_pred(sw: AlgorithmSweep) -> spec_fn(RunConfig) -> bool {
    |x: RunConfig| in_sweep(sw, x)
}

/// The configurations of a sweep block, without duplicates, in enumeration
/// order.
pub open spec fn sweep_configs(sw: AlgorithmSweep) -> Seq<RunConfig> {
    enumeration(sweep_pred(sw))
}

/// The rejection message of the first rejected configuration, if any.
pub open spec fn first_error(s: Seq<RunConfig>) -> Option<Seq<char>>
    decreases s.len(),
{
    if s.len() == 0 {
        None
    } else {
        match s[0].spec_error() {
            Some(e) => Some(e),
            None => first_error(s.drop_first()),
        }
    }
}

/// All combinations of the sweep's axes, deduplicated and ordered.
pub fn expand_sweep(sweep: &AlgorithmSweep) -> (v: Vec<RunConfig>)
    ensures
        v@ == sweep_configs(*sweep),
        enumerates(v@, sweep_pred(*sweep)),
        v@.len() > 0,
{
    let mut v: Vec<RunConfig> = Vec::new();
    match sweep {
        AlgorithmSweep::Est { axes } => {
            let fs = pick_or_default(&axes.foms, FomKind::SoftConstraint);
            let es = pick_or_default(&axes.endangered_thresholds, 1u32);
            let ks = pick_or_default(&axes.k_beams, 1usize);
            let bs = pick_or_default(&axes.branching_factors, 1usize);
            add_foms(&mut v, BeamShape::Est, &fs, &es, &ks, &bs);
            proof {
                let w = beam_config(BeamShape::Est, fs@[0], es@[0], ks@[0], bs@[0]);
                assert(fs@.contains(fs@[0]) && es@.contains(es@[0]) && ks@.contains(ks@[0])
                    && bs@.contains(bs@[0]));
                assert(v@.contains(w));
            }
        },
        AlgorithmSweep::Lst { axes } => {
            let fs = pick_or_default(&axes.foms, FomKind::SoftConstraint);
            let es = pick_or_default(&axes.endangered_thresholds, 1u32);
            let ks = pick_or_default(&axes.k_beams, 1usize);
            let bs = pick_or_default(&axes.branching_factors, 1usize);
            add_foms(&mut v, BeamShape::Lst, &fs, &es, &ks, &bs);
            proof {
                let w = beam_config(BeamShape::Lst, fs@[0], es@[0], ks@[0], bs@[0]);
                assert(fs@.contains(fs@[0]) && es@.contains(es@[0]) && ks@.contains(ks@[0])
                    && bs@.contains(bs@[0]));
                assert(v@.contains(w));
            }
        },
        AlgorithmSweep::MultiCursor { axes } => {
            let ls = pick_or_default(&axes.layouts, MultiCursorLayout::EstLstSplit);
            let fs = pick_or_default(&axes.foms, FomKind::SoftConstraint);
            let es = pick_or_default(&axes.endangered_thresholds, 1u32);
            let ks = pick_or_default(&axes.k_beams, 1usize);
            let bs = pick_or_default(&axes.branching_factors, 1usize);
            add_layouts(&mut v, &ls, &fs, &es, &ks, &bs);
            proof {
                let w = beam_config(BeamShape::Multi(ls@[0]), fs@[0], es@[0], ks@[0], bs@[0]);
                assert(ls@.contains(ls@[0]) && fs@.contains(fs@[0]) && es@.contains(es@[0])
                    && ks@.contains(ks@[0]) && bs@.contains(bs@[0]));
                assert(v@.contains(w));
            }
        },
        AlgorithmSweep::Hap { axes } => {
            let is = pick_or_default(&axes.iota_max_values, 128usize);
            let rs = pick_or_default(&axes.rho_values, 3usize);
            let ps = pick_or_default(&axes.population_sizes, 4usize);
            let ms = pick_or_default(&axes.survivor_modes, HapSurvivorMode::ElitistTopK);
            let cs = pick_or_default(&axes.survivor_caps, 4usize);
            let ss = pick_or_default(&axes.seeds, 0u64);
            add_iotas(&mut v, &is, &rs, &ps, &ms, &cs, &ss);
            proof {
                let w = RunConfig::Hap(
                    HapRunConfig {
                        iota_max: is@[0],
                        rho: rs@[0],
                        population_size: ps@[0],
                        survivor_mode: ms@[0],
                        survivor_cap: cs@[0],
                        seed: ss@[0],
                    },
                );
                assert(is@.contains(is@[0]) && rs@.contains(rs@[0]) && ps@.contains(ps@[0])
                    && ms@.contains(ms@[0]) && cs@.contains(cs@[0]) && ss@.contains(ss@[0]));
                assert(v@.contains(w));
            }
        },
    }
    proof {
        assert(enumerates(v@, sweep_pred(*sweep)));
        lemma_is_enumeration(v@, sweep_pred(*sweep));
    }
    v
}

/// The configurations of a sweep block, each checked; the first rejected
/// configuration stops the expansion with its message.
pub fn resolve_configs(sweep: &AlgorithmSweep) -> (r: Result<Vec<RunConfig>, String>)
    ensures
        match first_error(sweep_configs(*sweep)) {
            None => r is Ok && r->Ok_0@ == sweep_configs(*sweep),
            Some(e) => r is Err && r->Err_0@ == e,
        },
{
    let v = expand_sweep(sweep);
    let mut i: usize = 0;
    assert(v@.skip(0) =~= v@);
    while i < v.len()
        invariant
            i <= v.len(),
            v@ == sweep_configs(*sweep),
            first_error(v@) == first_error(v@.skip(i as int)),
        decreases v.len() - i,
    {
        let checked = v[i].validate();
        assert(v@.skip(i as int)[0] == v@[i as int]);
        match checked {
            Err(e) => {
                assert(first_error(v@.skip(i as int)) == Some(e@));
                return Err(e);
            },
            Ok(()) => {},
        }
        assert(v@.skip(i as int).drop_first() =~= v@.skip(i + 1));
        i = i + 1;
    }
    assert(v@.skip(i as int).len() == 0);
    Ok(v)
}

/// An EST block that gives no axis value runs the default EST
/// configuration, and only it.
pub proof fn lemma_empty_est_block(axes: EstSweepAxes)
    requires
        axes.foms@.len() == 0,
        axes.endangered_thresholds@.len() == 0,
        axes.k_beams@.len() == 0,
        axes.branching_factors@.len() == 0,
    ensures
        sweep_configs(AlgorithmSweep::Est { axes }) == seq![
            RunConfig::Est(
                EstRunConfig {
                    fom: FomKind::SoftConstraint,
                    endangered_threshold: 1,
                    k_beams: 1,
                    branching_factor: 1,
                },
            ),
        ],
{
    let sw = AlgorithmSweep::Est { axes };
    let d = RunConfig::Est(
        EstRunConfig { fom: FomKind::SoftConstraint, endangered_threshold: 1, k_beams: 1, branching_factor: 1 },
    );
    let s = seq![d];
    assert forall|x: RunConfig| #[trigger] s.contains(x) <==> sweep_pred(sw)(x) by {
        lemma_single_contains(FomKind::SoftConstraint, FomKind::SoftConstraint);
        lemma_single_contains(1u32, 1u32);
        lemma_single_contains(1usize, 1usize);
        if s.contains(x) {
            assert(s[0] == x);
        }
        if sweep_pred(sw)(x) {
            match x {
                RunConfig::Est(c) => {
                    lemma_single_contains(FomKind::SoftConstraint, c.fom);
                    lemma_single_contains(1u32, c.endangered_threshold);
                    lemma_single_contains(1usize, c.k_beams);
                    lemma_single_contains(1usize, c.branching_factor);
                    assert(x == d);
                    assert(s[0] == x);
                },
                _ => {},
            }
        }
    }
    assert(enumerates(s, sweep_pred(sw)));
    lemma_is_enumeration(s, sweep_pred(sw));
}

/// A HAP block that gives no axis value runs the default HAP
/// configuration, and only it.
pub proof fn lemma_empty_hap_block(axes: HapSweepAxes)
    requires
        axes.iota_max_values@.len() == 0,
        axes.rho_values@.len() == 0,
        axes.population_sizes@.len() == 0,
        axes.survivor_modes@.len() == 0,
        axes.survivor_caps@.len() == 0,
        axes.seeds@.len() == 0,
    ensures
        sweep_configs(AlgorithmSweep::Hap { axes }) == seq![
            RunConfig::Hap(
                HapRunConfig {
                    iota_max: 128,
                    rho: 3,
                    population_size: 4,
                    survivor_mode: HapSurvivorMode::ElitistTopK,
                    survivor_cap: 4,
                    seed: 0,
                },
            ),
        ],
{
    let sw = AlgorithmSweep::Hap { axes };
    let d = RunConfig::Hap(
        HapRunConfig {
            iota_max: 128,
            rho: 3,
            population_size: 4,
            survivor_mode: HapSurvivorMode::ElitistTopK,
            survivor_cap: 4,
            seed: 0,
        },
    );
    let s = seq![d];
    assert forall|x: RunConfig| #[trigger] s.contains(x) <==> sweep_pred(sw)(x) by {
        lemma_single_contains(128usize, 128usize);
        lemma_single_contains(3usize, 3usize);
        lemma_single_contains(4usize, 4usize);
        lemma_single_contains(HapSurvivorMode::ElitistTopK, HapSurvivorMode::ElitistTopK);
        lemma_single_contains(0u64, 0u64);
        if s.contains(x) {
            assert(s[0] == x);
        }
        if sweep_pred(sw)(x) {
            match x {
                RunConfig::Hap(c) => {
                    lemma_single_contains(128usize, c.iota_max);
                    lemma_single_contains(3usize, c.rho);
                    lemma_single_contains(4usize, c.population_size);
                    lemma_single_contains(HapSurvivorMode::ElitistTopK, c.survivor_mode);
                    lemma_single_contains(4usize, c.survivor_cap);
                    lemma_single_contains(0u64, c.seed);
                    assert(x == d);
                    assert(s[0] == x);
                },
                _ => {},
            }
        }
    }
    assert(enumerates(s, sweep_pred(sw)));
    lemma_is_enumeration(s, sweep_pred(sw));
}

/// A multi-cursor block that lists no layout runs only the `est_lst_split`
/// layout: every configuration of the block, and every element of any
/// ordered listing of them (such as the one `expand_sweep` returns), is a
/// multi-cursor configuration with that layout.
pub proof fn lemma_multi_block_default_layout(axes: MultiCursorSweepAxes)
    requires
        axes.layouts@.len() == 0,
    ensures
        forall|x: RunConfig|
            #[trigger] in_sweep(AlgorithmSweep::MultiCursor { axes }, x) ==> x is MultiCursor
                && x->MultiCursor_0.layout == MultiCursorLayout::EstLstSplit,
        forall|s: Seq<RunConfig>, i: int|
            enumerates(s, sweep_pred(AlgorithmSweep::MultiCursor { axes })) && 0 <= i < s.len()
                ==> #[trigger] s[i] is MultiCursor && s[i]->MultiCursor_0.layout
                == MultiCursorLayout::EstLstSplit,
{
    let sw = AlgorithmSweep::MultiCursor { axes };
    assert forall|x: RunConfig| #[trigger] in_sweep(sw, x) implies x is MultiCursor
        && x->MultiCursor_0.layout == MultiCursorLayout::EstLstSplit by {
        if let RunConfig::MultiCursor(c) = x {
            lemma_single_contains(MultiCursorLayout::EstLstSplit, c.layout);
        }
    }
    assert forall|s: Seq<RunConfig>, i: int|
        enumerates(s, sweep_pred(sw)) && 0 <= i < s.len() implies #[trigger] s[i] is MultiCursor
            && s[i]->MultiCursor_0.layout == MultiCursorLayout::EstLstSplit by {
        assert(s.contains(s[i]));
        assert(sweep_pred(sw)(s[i]));
        assert(in_sweep(sw, s[i]));
    }
}

/// `v` is one of `values`, or `default` when no value is listed.
pub open spec fn taken_from<T>(values: Seq<T>, default: T, v: T) -> bool {
    if values.len() == 0 {
        v == default
    } else {
        values.contains(v)
    }
}

proof fn lemma_or_default_contains<T>(values: Seq<T>, default: T, v: T)
    ensures
        or_default(values, default).contains(v) <==> taken_from(values, default, v),
{
    if values.len() == 0 {
        lemma_single_contains(default, v);
    }
}

/// Every configuration of a sweep block is of the block's algorithm and
/// takes each parameter from the block's list for that axis, or, when the
/// list is empty, the axis default: the soft-constraint figure of merit,
/// threshold 1, 1 beam, branching 1 and the `est_lst_split` layout for the
/// beam searches; iota_max 128, rho 3, population 4, elitist top-k
/// survivors, cap 4 and seed 0 for HAP.
pub proof fn lemma_sweep_axis_values(sw: AlgorithmSweep, x: RunConfig)
    requires
        in_sweep(sw, x),
    ensures
        match sw {
            AlgorithmSweep::Est { axes } => x is Est && taken_from(axes.foms@, FomKind::SoftConstraint, x->Est_0.fom) && taken_from(axes.endangered_thresholds@, 1u32, x->Est_0.endangered_threshold) && taken_from(axes.k_beams@, 1usize, x->Est_0.k_beams) && taken_from(axes.branching_factors@, 1usize, x->Est_0.branching_factor),
            AlgorithmSweep::Lst { axes } => x is Lst && taken_from(axes.foms@, FomKind::SoftConstraint, x->Lst_0.fom) && taken_from(axes.endangered_thresholds@, 1u32, x->Lst_0.endangered_threshold) && taken_from(axes.k_beams@, 1usize, x->Lst_0.k_beams) && taken_from(axes.branching_factors@, 1usize, x->Lst_0.branching_factor),
            AlgorithmSweep::MultiCursor { axes } => x is MultiCursor && taken_from(axes.layouts@, MultiCursorLayout::EstLstSplit, x->MultiCursor_0.layout) && taken_from(axes.foms@, FomKind::SoftConstraint, x->MultiCursor_0.fom) && taken_from(axes.endangered_thresholds@, 1u32, x->MultiCursor_0.endangered_threshold) && taken_from(axes.k_beams@, 1usize, x->MultiCursor_0.k_beams) && taken_from(axes.branching_factors@, 1usize, x->MultiCursor_0.branching_factor),
            AlgorithmSweep::Hap { axes } => x is Hap && taken_from(axes.iota_max_values@, 128usize, x->Hap_0.iota_max) && taken_from(axes.rho_values@, 3usize, x->Hap_0.rho) && taken_from(axes.population_sizes@, 4usize, x->Hap_0.population_size) && taken_from(axes.survivor_modes@, HapSurvivorMode::ElitistTopK, x->Hap_0.survivor_mode) && taken_from(axes.survivor_caps@, 4usize, x->Hap_0.survivor_cap) && taken_from(axes.seeds@, 0u64, x->Hap_0.seed),
        },
{
    match sw {
        AlgorithmSweep::Est { axes } => {
            if let RunConfig::Est(c) = x {
                lemma_or_default_contains(axes.foms@, FomKind::SoftConstraint, c.fom);
                lemma_or_default_contains(axes.endangered_thresholds@, 1u32, c.endangered_threshold);
                lemma_or_default_contains(axes.k_beams@, 1usize, c.k_beams);
                lemma_or_default_contains(axes.branching_factors@, 1usize, c.branching_factor);
            }
        },
        AlgorithmSweep::Lst { axes } => {
            if let RunConfig::Lst(c) = x {
                lemma_or_default_contains(axes.foms@, FomKind::SoftConstraint, c.fom);
                lemma_or_default_contains(axes.endangered_thresholds@, 1u32, c.endangered_threshold);
                lemma_or_default_contains(axes.k_beams@, 1usize, c.k_beams);
                lemma_or_default_contains(axes.branching_factors@, 1usize, c.branching_factor);
            }
        },
        AlgorithmSweep::MultiCursor { axes } => {
            if let RunConfig::MultiCursor(c) = x {
                lemma_or_default_contains(axes.layouts@, MultiCursorLayout::EstLstSplit, c.layout);
                lemma_or_default_contains(axes.foms@, FomKind::SoftConstraint, c.fom);
                lemma_or_default_contains(axes.endangered_thresholds@, 1u32, c.endangered_threshold);
                lemma_or_default_contains(axes.k_beams@, 1usize, c.k_beams);
                lemma_or_default_contains(axes.branching_factors@, 1usize, c.branching_factor);
            }
        },
        AlgorithmSweep::Hap { axes } => {
            if let RunConfig::Hap(c) = x {
                lemma_or_default_contains(axes.iota_max_values@, 128usize, c.iota_max);
                lemma_or_default_contains(axes.rho_values@, 3usize, c.rho);
                lemma_or_default_contains(axes.population_sizes@, 4usize, c.population_size);
                lemma_or_default_contains(axes.survivor_modes@, HapSurvivorMode::ElitistTopK, c.survivor_mode);
                lemma_or_default_contains(axes.survivor_caps@, 4usize, c.survivor_cap);
                lemma_or_default_contains(axes.seeds@, 0u64, c.seed);
            }
        },
    }
}

} // verus!
