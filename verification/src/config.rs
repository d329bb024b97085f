//! Run-configuration records for a single scheduler run and the sweep axes
//! that a specification expands into such records.
//!
//! Every configuration has a slug: a short, filesystem-safe string that
//! encodes every configuration axis and names the run's schedule file and
//! the last component of its cell id.
use vstd::prelude::*;
use vstd::string::*;

use crate::text::{dec, is_digit, lemma_dec_injective, lemma_dec_split, owned, push_decimal, push_str};

verus! {

/// Figure-of-merit variant used to rank candidate placements.
#[derive(Debug, Clone, Copy, PartialEq, Eq, Structural)]
pub enum FomKind {
    /// The default figure of merit, driven by soft constraints.
    SoftConstraint,
    /// Prefers placements that keep future placements flexible.
    FutureFlexibility,
}

impl FomKind {
    pub open spec fn spec_name(self) -> Seq<char> {
        match self {
            FomKind::SoftConstraint => "soft_constraint"@,
            FomKind::FutureFlexibility => "future_flexibility"@,
        }
    }

    /// Stable snake-case name of the variant.
    pub fn as_str(self) -> (s: &'static str)
        ensures
            s@ == self.spec_name(),
    {
        match self {
            FomKind::SoftConstraint => "soft_constraint",
            FomKind::FutureFlexibility => "future_flexibility",
        }
    }
}

impl Default for FomKind {
    fn default() -> (f: Self)
        ensures
            f == FomKind::SoftConstraint,
    {
        FomKind::SoftConstraint
    }
}

/// Slug suffix for a figure of merit: empty for the default one, so that
/// names of runs with the default figure of merit stay stable.
pub open spec fn fom_suffix(f: FomKind) -> Seq<char> {
    if f == FomKind::SoftConstraint {
        Seq::empty()
    } else {
        "-"@ + f.spec_name()
    }
}

fn push_fom_suffix(out: &mut String, f: FomKind)
    ensures
        final(out)@ == old(out)@ + fom_suffix(f),
{
    if f == FomKind::SoftConstraint {
        proof {
            assert(old(out)@ + fom_suffix(f) =~= old(out)@);
        }
    } else {
        push_str(out, "-");
        push_str(out, f.as_str());
        proof {
            assert(final(out)@ =~= old(out)@ + fom_suffix(f));
        }
    }
}

/// `e<threshold>-k<beams>-b<branching>` followed by the figure-of-merit suffix.
pub open spec fn beam_slug(f: FomKind, e: nat, k: nat, b: nat) -> Seq<char> {
    "e"@ + dec(e) + "-k"@ + dec(k) + "-b"@ + dec(b) + fom_suffix(f)
}

fn push_beam_slug(out: &mut String, f: FomKind, e: u64, k: u64, b: u64)
    ensures
        final(out)@ == old(out)@ + beam_slug(f, e as nat, k as nat, b as nat),
{
    push_str(out, "e");
    push_decimal(out, e);
    push_str(out, "-k");
    push_decimal(out, k);
    push_str(out, "-b");
    push_decimal(out, b);
    push_fom_suffix(out, f);
    proof {
        assert(final(out)@ =~= old(out)@ + beam_slug(f, e as nat, k as nat, b as nat));
    }
}

/// An explicit observing window that replaces the one found in the input
/// problem. The two bounds are Modified Julian Dates, carried unchanged as
/// the bit patterns of IEEE-754 doubles.
#[derive(Debug, Clone, Copy, PartialEq, Eq, Structural)]
pub struct HorizonOverride {
    pub start_mjd_bits: u64,
    pub end_mjd_bits: u64,
}

/// EST parameter axes to sweep. Empty axes fall back to the default value.
#[derive(Debug, Clone)]
pub struct EstSweepAxes {
    pub endangered_thresholds: Vec<u32>,
    pub k_beams: Vec<usize>,
    pub branching_factors: Vec<usize>,
    pub foms: Vec<FomKind>,
}

impl Default for EstSweepAxes {
    /// No axis given: every axis takes its default value.
    fn default() -> (a: Self)
        ensures
            a.endangered_thresholds@.len() == 0,
            a.k_beams@.len() == 0,
            a.branching_factors@.len() == 0,
            a.foms@.len() == 0,
    {
        EstSweepAxes {
            endangered_thresholds: Vec::new(),
            k_beams: Vec::new(),
            branching_factors: Vec::new(),
            foms: Vec::new(),
        }
    }
}

/// Multi-cursor parameter axes to sweep: the EST beam axes plus layouts.
#[derive(Debug, Clone)]
pub struct MultiCursorSweepAxes {
    pub layouts: Vec<MultiCursorLayout>,
    pub endangered_thresholds: Vec<u32>,
    pub k_beams: Vec<usize>,
    pub branching_factors: Vec<usize>,
    pub foms: Vec<FomKind>,
}

impl Default for MultiCursorSweepAxes {
    /// No axis given: every axis takes its default value.
    fn default() -> (a: Self)
        ensures
            a.layouts@.len() == 0,
            a.endangered_thresholds@.len() == 0,
            a.k_beams@.len() == 0,
            a.branching_factors@.len() == 0,
            a.foms@.len() == 0,
    {
        MultiCursorSweepAxes {
            layouts: Vec::new(),
            endangered_thresholds: Vec::new(),
            k_beams: Vec::new(),
            branching_factors: Vec::new(),
            foms: Vec::new(),
        }
    }
}

/// HAP survivor-selection mode.
#[derive(Debug, Clone, Copy, PartialEq, Eq, Structural)]
pub enum HapSurvivorMode {
    /// Keep the single best individual.
    GreedyOne,
    /// Keep the k best individuals by composite rank.
    ElitistTopK,
    /// Keep the non-dominated front, up to a cap.
    ParetoFront,
}

impl HapSurvivorMode {
    pub open spec fn spec_name(self) -> Seq<char> {
        match self {
            HapSurvivorMode::GreedyOne => "greedy_one"@,
            HapSurvivorMode::ElitistTopK => "elitist_top_k"@,
            HapSurvivorMode::ParetoFront => "pareto_front"@,
        }
    }

    /// Canonical snake-case name.
    pub fn as_str(self) -> (s: &'static str)
        ensures
            s@ == self.spec_name(),
    {
        match self {
            HapSurvivorMode::GreedyOne => "greedy_one",
            HapSurvivorMode::ElitistTopK => "elitist_top_k",
            HapSurvivorMode::ParetoFront => "pareto_front",
        }
    }
}

/// HAP parameter axes to sweep. Empty axes fall back to the default value.
#[derive(Debug, Clone)]
pub struct HapSweepAxes {
    pub iota_max_values: Vec<usize>,
    pub rho_values: Vec<usize>,
    pub population_sizes: Vec<usize>,
    pub survivor_modes: Vec<HapSurvivorMode>,
    pub survivor_caps: Vec<usize>,
    pub seeds: Vec<u64>,
}

impl Default for HapSweepAxes {
    /// No axis given: every axis takes its default value.
    fn default() -> (a: Self)
        ensures
            a.iota_max_values@.len() == 0,
            a.rho_values@.len() == 0,
            a.population_sizes@.len() == 0,
            a.survivor_modes@.len() == 0,
            a.survivor_caps@.len() == 0,
            a.seeds@.len() == 0,
    {
        HapSweepAxes {
            iota_max_values: Vec::new(),
            rho_values: Vec::new(),
            population_sizes: Vec::new(),
            survivor_modes: Vec::new(),
            survivor_caps: Vec::new(),
            seeds: Vec::new(),
        }
    }
}

/// Legacy sweep block: flattened EST axes plus optional per-algorithm blocks.
#[derive(Debug, Clone)]
pub struct ExperimentSweep {
    pub legacy_est: EstSweepAxes,
    pub est: Option<EstSweepAxes>,
    pub hap: Option<HapSweepAxes>,
}

/// Configuration of one EST run.
#[derive(Debug, Clone, Copy, PartialEq, Eq, Structural)]
pub struct EstRunConfig {
    pub fom: FomKind,
    pub endangered_threshold: u32,
    pub k_beams: usize,
    pub branching_factor: usize,
}

impl Default for EstRunConfig {
    fn default() -> (c: Self)
        ensures
            c == (EstRunConfig {
                fom: FomKind::SoftConstraint,
                endangered_threshold: 1,
                k_beams: 1,
                branching_factor: 1,
            }),
    {
        EstRunConfig {
            fom: FomKind::SoftConstraint,
            endangered_threshold: 1,
            k_beams: 1,
            branching_factor: 1,
        }
    }
}

impl EstRunConfig {
    pub open spec fn spec_slug(self) -> Seq<char> {
        beam_slug(
            self.fom,
            self.endangered_threshold as nat,
            self.k_beams as nat,
            self.branching_factor as nat,
        )
    }

    /// Slug encoding every EST axis, e.g. `e2-k5-b3` or
    /// `e2-k5-b3-future_flexibility`.
    pub fn slug(self) -> (s: String)
        ensures
            s@ == self.spec_slug(),
    {
        let mut s = String::new();
        push_beam_slug(
            &mut s,
            self.fom,
            self.endangered_threshold as u64,
            self.k_beams as u64,
            self.branching_factor as u64,
        );
        proof {
            assert(s@ =~= self.spec_slug());
        }
        s
    }
}

/// Configuration of one LST run: the EST axes, run on the mirrored horizon.
#[derive(Debug, Clone, Copy, PartialEq, Eq, Structural)]
pub struct LstRunConfig {
    pub fom: FomKind,
    pub endangered_threshold: u32,
    pub k_beams: usize,
    pub branching_factor: usize,
}

impl Default for LstRunConfig {
    fn default() -> (c: Self)
        ensures
            c == (LstRunConfig {
                fom: FomKind::SoftConstraint,
                endangered_threshold: 1,
                k_beams: 1,
                branching_factor: 1,
            }),
    {
        LstRunConfig {
            fom: FomKind::SoftConstraint,
            endangered_threshold: 1,
            k_beams: 1,
            branching_factor: 1,
        }
    }
}

impl LstRunConfig {
    pub open spec fn spec_slug(self) -> Seq<char> {
        beam_slug(
            self.fom,
            self.endangered_threshold as nat,
            self.k_beams as nat,
            self.branching_factor as nat,
        )
    }

    /// Slug in the same format as the EST slug; the algorithm is already part
    /// of the cell id.
    pub fn slug(self) -> (s: String)
        ensures
            s@ == self.spec_slug(),
    {
        let mut s = String::new();
        push_beam_slug(
            &mut s,
            self.fom,
            self.endangered_threshold as u64,
            self.k_beams as u64,
            self.branching_factor as u64,
        );
        proof {
            assert(s@ =~= self.spec_slug());
        }
        s
    }
}

/// Predefined two-cursor layouts; both split the horizon at its midpoint.
#[derive(Debug, Clone, Copy, PartialEq, Eq, Structural)]
pub enum MultiCursorLayout {
    /// Forward cursor over the first half, backward cursor over the second.
    EstLstSplit,
    /// Forward cursors over both halves.
    StartMidForward,
}

impl MultiCursorLayout {
    pub open spec fn spec_name(self) -> Seq<char> {
        match self {
            MultiCursorLayout::EstLstSplit => "est_lst_split"@,
            MultiCursorLayout::StartMidForward => "start_mid_forward"@,
        }
    }

    /// Stable slug fragment encoding the layout.
    pub fn as_str(self) -> (s: &'static str)
        ensures
            s@ == self.spec_name(),
    {
        match self {
            MultiCursorLayout::EstLstSplit => "est_lst_split",
            MultiCursorLayout::StartMidForward => "start_mid_forward",
        }
    }
}

/// Configuration of one multi-cursor run.
#[derive(Debug, Clone, Copy, PartialEq, Eq, Structural)]
pub struct MultiCursorRunConfig {
    pub fom: FomKind,
    pub endangered_threshold: u32,
    pub k_beams: usize,
    pub branching_factor: usize,
    pub layout: MultiCursorLayout,
}

impl Default for MultiCursorRunConfig {
    fn default() -> (c: Self)
        ensures
            c == (MultiCursorRunConfig {
                fom: FomKind::SoftConstraint,
                endangered_threshold: 1,
                k_beams: 1,
                branching_factor: 1,
                layout: MultiCursorLayout::EstLstSplit,
            }),
    {
        MultiCursorRunConfig {
            fom: FomKind::SoftConstraint,
            endangered_threshold: 1,
            k_beams: 1,
            branching_factor: 1,
            layout: MultiCursorLayout::EstLstSplit,
        }
    }
}

impl MultiCursorRunConfig {
    pub open spec fn spec_slug(self) -> Seq<char> {
        self.layout.spec_name() + "-"@ + beam_slug(
            self.fom,
            self.endangered_threshold as nat,
            self.k_beams as nat,
            self.branching_factor as nat,
        )
    }

    /// Slug encoding the layout and the beam axes, e.g.
    /// `est_lst_split-e1-k4-b2`.
    pub fn slug(self) -> (s: String)
        ensures
            s@ == self.spec_slug(),
    {
        let mut s = owned(self.layout.as_str());
        push_str(&mut s, "-");
        push_beam_slug(
            &mut s,
            self.fom,
            self.endangered_threshold as u64,
            self.k_beams as u64,
            self.branching_factor as u64,
        );
        proof {
            assert(s@ =~= self.spec_slug());
        }
        s
    }
}

/// Configuration of one HAP run.
#[derive(Debug, Clone, Copy, PartialEq, Eq, Structural)]
pub struct HapRunConfig {
    pub iota_max: usize,
    pub rho: usize,
    pub population_size: usize,
    pub survivor_mode: HapSurvivorMode,
    pub survivor_cap: usize,
    pub seed: u64,
}

impl Default for HapRunConfig {
    fn default() -> (c: Self)
        ensures
            c == (HapRunConfig {
                iota_max: 128,
                rho: 3,
                population_size: 4,
                survivor_mode: HapSurvivorMode::ElitistTopK,
                survivor_cap: 4,
                seed: 0,
            }),
    {
        HapRunConfig {
            iota_max: 128,
            rho: 3,
            population_size: 4,
            survivor_mode: HapSurvivorMode::ElitistTopK,
            survivor_cap: 4,
            seed: 0,
        }
    }
}

/// Slug fragment naming the survivor policy and its cap.
pub open spec fn survivor_slug(m: HapSurvivorMode, cap: nat) -> Seq<char> {
    match m {
        HapSurvivorMode::GreedyOne => "greedy1-"@ + dec(cap),
        HapSurvivorMode::ElitistTopK => "elitist"@ + dec(cap),
        HapSurvivorMode::ParetoFront => "pareto"@ + dec(cap),
    }
}

/// The reason a HAP configuration is rejected, if any: the first parameter
/// among `iota_max`, `rho`, `population_size`, `survivor_cap` that is zero.
pub open spec fn hap_zero_param(c: HapRunConfig) -> Option<Seq<char>> {
    if c.iota_max == 0 {
        Some("iota_max"@)
    } else if c.rho == 0 {
        Some("rho"@)
    } else if c.population_size == 0 {
        Some("population_size"@)
    } else if c.survivor_cap == 0 {
        Some("survivor_cap"@)
    } else {
        None
    }
}

/// Error text for a HAP configuration whose parameter `param` is zero.
pub open spec fn hap_error(c: HapRunConfig, param: Seq<char>) -> Seq<char> {
    "invalid HAP configuration for "@ + c.spec_slug() + ": "@ + param + " must be at least 1"@
}

impl HapRunConfig {
    pub open spec fn spec_slug(self) -> Seq<char> {
        "hap-i"@ + dec(self.iota_max as nat) + "-r"@ + dec(self.rho as nat) + "-p"@ + dec(
            self.population_size as nat,
        ) + "-"@ + survivor_slug(self.survivor_mode, self.survivor_cap as nat) + "-s"@ + dec(
            self.seed as nat,
        )
    }

    /// Slug encoding every HAP axis, e.g. `hap-i64-r2-p8-pareto5-s42`.
    pub fn slug(self) -> (s: String)
        ensures
            s@ == self.spec_slug(),
    {
        let mut s = owned("hap-i");
        push_decimal(&mut s, self.iota_max as u64);
        push_str(&mut s, "-r");
        push_decimal(&mut s, self.rho as u64);
        push_str(&mut s, "-p");
        push_decimal(&mut s, self.population_size as u64);
        push_str(&mut s, "-");
        match self.survivor_mode {
            HapSurvivorMode::GreedyOne => {
                push_str(&mut s, "greedy1-");
                push_decimal(&mut s, self.survivor_cap as u64);
            },
            HapSurvivorMode::ElitistTopK => {
                push_str(&mut s, "elitist");
                push_decimal(&mut s, self.survivor_cap as u64);
            },
            HapSurvivorMode::ParetoFront => {
                push_str(&mut s, "pareto");
                push_decimal(&mut s, self.survivor_cap as u64);
            },
        }
        push_str(&mut s, "-s");
        push_decimal(&mut s, self.seed);
        proof {
            assert(s@ =~= self.spec_slug());
        }
        s
    }

    /// Checks the parameters that the HAP planner needs to be at least 1.
    pub fn validate(self) -> (r: Result<(), String>)
        ensures
            match hap_zero_param(self) {
                None => r is Ok,
                Some(p) => r is Err && r->Err_0@ == hap_error(self, p),
            },
    {
        let param = if self.iota_max == 0 {
            "iota_max"
        } else if self.rho == 0 {
            "rho"
        } else if self.population_size == 0 {
            "population_size"
        } else if self.survivor_cap == 0 {
            "survivor_cap"
        } else {
            return Ok(());
        };
        let mut msg = owned("invalid HAP configuration for ");
        let slug = self.slug();
        push_str(&mut msg, slug.as_str());
        push_str(&mut msg, ": ");
        push_str(&mut msg, param);
        push_str(&mut msg, " must be at least 1");
        proof {
            assert(msg@ =~= hap_error(self, param@));
        }
        Err(msg)
    }
}

/// Configuration of one scheduler run.
#[derive(Debug, Clone, Copy, PartialEq, Eq, Structural)]
pub enum RunConfig {
    Est(EstRunConfig),
    Hap(HapRunConfig),
    Lst(LstRunConfig),
    MultiCursor(MultiCursorRunConfig),
}

impl Default for RunConfig {
    fn default() -> (c: Self)
        ensures
            c == RunConfig::Est(
                EstRunConfig {
                    fom: FomKind::SoftConstraint,
                    endangered_threshold: 1,
                    k_beams: 1,
                    branching_factor: 1,
                },
            ),
    {
        RunConfig::Est(EstRunConfig::default())
    }
}

/// Algorithm names as they appear in specifications and cell ids.
pub open spec fn algorithm_name(kind: nat) -> Seq<char> {
    if kind == 0 {
        "est"@
    } else if kind == 1 {
        "hap"@
    } else if kind == 2 {
        "lst"@
    } else {
        "multi_cursor"@
    }
}

impl RunConfig {
    /// 0 for EST, 1 for HAP, 2 for LST, 3 for multi-cursor.
    pub open spec fn kind(self) -> nat {
        match self {
            RunConfig::Est(_) => 0,
            RunConfig::Hap(_) => 1,
            RunConfig::Lst(_) => 2,
            RunConfig::MultiCursor(_) => 3,
        }
    }

    pub open spec fn spec_slug(self) -> Seq<char> {
        match self {
            RunConfig::Est(c) => c.spec_slug(),
            RunConfig::Hap(c) => c.spec_slug(),
            RunConfig::Lst(c) => c.spec_slug(),
            RunConfig::MultiCursor(c) => c.spec_slug(),
        }
    }

    /// The rejection message of this configuration, if it is rejected.
    pub open spec fn spec_error(self) -> Option<Seq<char>> {
        match self {
            RunConfig::Hap(c) => match hap_zero_param(c) {
                Some(p) => Some(hap_error(c, p)),
                None => None,
            },
            _ => None,
        }
    }

    /// `"est"`, `"hap"`, `"lst"` or `"multi_cursor"`.
    pub fn algorithm(self) -> (s: &'static str)
        ensures
            s@ == algorithm_name(self.kind()),
    {
        match self {
            RunConfig::Est(_) => "est",
            RunConfig::Hap(_) => "hap",
            RunConfig::Lst(_) => "lst",
            RunConfig::MultiCursor(_) => "multi_cursor",
        }
    }

    /// The slug of the wrapped configuration.
    pub fn slug(self) -> (s: String)
        ensures
            s@ == self.spec_slug(),
    {
        match self {
            RunConfig::Est(c) => c.slug(),
            RunConfig::Hap(c) => c.slug(),
            RunConfig::Lst(c) => c.slug(),
            RunConfig::MultiCursor(c) => c.slug(),
        }
    }

    /// File-name stem of the run's schedule output: the slug.
    pub fn schedule_file_stem(self) -> (s: String)
        ensures
            s@ == self.spec_slug(),
    {
        self.slug()
    }

    /// Checks the configuration before it becomes a cell: HAP parameters
    /// must be at least 1.
    pub fn validate(self) -> (r: Result<(), String>)
        ensures
            match self.spec_error() {
                None => r is Ok,
                Some(e) => r is Err && r->Err_0@ == e,
            },
    {
        match self {
            RunConfig::Hap(c) => c.validate(),
            _ => Ok(()),
        }
    }
}

proof fn lemma_strip(p: Seq<char>, a: Seq<char>, b: Seq<char>)
    requires
        p + a == p + b,
    ensures
        a == b,
{
    assert(a =~= (p + a).skip(p.len() as int));
    assert(b =~= (p + b).skip(p.len() as int));
}

/// Reading a separator, a number and the rest: the same text gives the same
/// number and the same rest, when the rest starts with a dash or is empty.
proof fn lemma_peel(p: Seq<char>, x: nat, a: Seq<char>, y: nat, b: Seq<char>)
    requires
        p + (dec(x) + a) == p + (dec(y) + b),
        a.len() > 0 ==> a[0] == '-',
        b.len() > 0 ==> b[0] == '-',
    ensures
        x == y,
        a == b,
{
    lemma_strip(p, dec(x) + a, dec(y) + b);
    lemma_dec_split(x, a, y, b);
}

proof fn lemma_beam_shape(f: FomKind, e: nat, k: nat, b: nat)
    ensures
        beam_slug(f, e, k, b) == "e"@ + (dec(e) + ("-k"@ + (dec(k) + ("-b"@ + (dec(b)
            + fom_suffix(f)))))),
{
    assert(beam_slug(f, e, k, b) =~= "e"@ + (dec(e) + ("-k"@ + (dec(k) + ("-b"@ + (dec(b)
        + fom_suffix(f)))))));
}

proof fn lemma_starts_with_dash(p: Seq<char>, rest: Seq<char>)
    requires
        p.len() > 0,
        p[0] == '-',
    ensures
        (p + rest)[0] == '-',
{
}

proof fn lemma_beam_slug_injective(
    f1: FomKind,
    e1: nat,
    k1: nat,
    b1: nat,
    f2: FomKind,
    e2: nat,
    k2: nat,
    b2: nat,
)
    requires
        beam_slug(f1, e1, k1, b1) == beam_slug(f2, e2, k2, b2),
    ensures
        f1 == f2 && e1 == e2 && k1 == k2 && b1 == b2,
{
    let tb1 = dec(b1) + fom_suffix(f1);
    let tb2 = dec(b2) + fom_suffix(f2);
    let tk1 = dec(k1) + ("-b"@ + tb1);
    let tk2 = dec(k2) + ("-b"@ + tb2);
    lemma_beam_shape(f1, e1, k1, b1);
    lemma_beam_shape(f2, e2, k2, b2);
    assert("-k"@.len() > 0 && "-k"@[0] == '-' && "-b"@.len() > 0 && "-b"@[0] == '-') by {
        reveal_strlit("-k");
        reveal_strlit("-b");
    }
    lemma_starts_with_dash("-k"@, tk1);
    lemma_starts_with_dash("-k"@, tk2);
    lemma_peel("e"@, e1, "-k"@ + tk1, e2, "-k"@ + tk2);
    lemma_starts_with_dash("-b"@, tb1);
    lemma_starts_with_dash("-b"@, tb2);
    lemma_peel("-k"@, k1, "-b"@ + tb1, k2, "-b"@ + tb2);
    assert(fom_suffix(f1).len() > 0 ==> fom_suffix(f1)[0] == '-') by {
        reveal_strlit("-");
    }
    assert(fom_suffix(f2).len() > 0 ==> fom_suffix(f2)[0] == '-') by {
        reveal_strlit("-");
    }
    lemma_peel("-b"@, b1, fom_suffix(f1), b2, fom_suffix(f2));
    if f1 != f2 {
        assert(fom_suffix(FomKind::FutureFlexibility).len() > 0) by {
            reveal_strlit("-");
        }
    }
}

/// Two EST configurations with the same slug are the same configuration.
pub proof fn lemma_est_slug_injective(a: EstRunConfig, b: EstRunConfig)
    requires
        a.spec_slug() == b.spec_slug(),
    ensures
        a == b,
{
    lemma_beam_slug_injective(
        a.fom,
        a.endangered_threshold as nat,
        a.k_beams as nat,
        a.branching_factor as nat,
        b.fom,
        b.endangered_threshold as nat,
        b.k_beams as nat,
        b.branching_factor as nat,
    );
}

/// Two LST configurations with the same slug are the same configuration.
pub proof fn lemma_lst_slug_injective(a: LstRunConfig, b: LstRunConfig)
    requires
        a.spec_slug() == b.spec_slug(),
    ensures
        a == b,
{
    lemma_beam_slug_injective(
        a.fom,
        a.endangered_threshold as nat,
        a.k_beams as nat,
        a.branching_factor as nat,
        b.fom,
        b.endangered_threshold as nat,
        b.k_beams as nat,
        b.branching_factor as nat,
    );
}

/// Two multi-cursor configurations with the same slug are the same
/// configuration.
pub proof fn lemma_multi_cursor_slug_injective(a: MultiCursorRunConfig, b: MultiCursorRunConfig)
    requires
        a.spec_slug() == b.spec_slug(),
    ensures
        a == b,
{
    reveal_strlit("est_lst_split");
    reveal_strlit("start_mid_forward");
    reveal_strlit("-");
    let ba = beam_slug(
        a.fom,
        a.endangered_threshold as nat,
        a.k_beams as nat,
        a.branching_factor as nat,
    );
    let bb = beam_slug(
        b.fom,
        b.endangered_threshold as nat,
        b.k_beams as nat,
        b.branching_factor as nat,
    );
    if a.layout != b.layout {
        assert(a.spec_slug()[0] == a.layout.spec_name()[0]);
        assert(b.spec_slug()[0] == b.layout.spec_name()[0]);
        assert(false);
    }
    let p = a.layout.spec_name() + "-"@;
    assert(a.spec_slug() =~= p + ba);
    assert(b.spec_slug() =~= p + bb);
    lemma_strip(p, ba, bb);
    lemma_beam_slug_injective(
        a.fom,
        a.endangered_threshold as nat,
        a.k_beams as nat,
        a.branching_factor as nat,
        b.fom,
        b.endangered_threshold as nat,
        b.k_beams as nat,
        b.branching_factor as nat,
    );
}

spec fn hap_survivor_tail(c: HapRunConfig) -> Seq<char> {
    survivor_slug(c.survivor_mode, c.survivor_cap as nat) + ("-s"@ + dec(c.seed as nat))
}

spec fn hap_pop_tail(c: HapRunConfig) -> Seq<char> {
    dec(c.population_size as nat) + ("-"@ + hap_survivor_tail(c))
}

spec fn hap_rho_tail(c: HapRunConfig) -> Seq<char> {
    dec(c.rho as nat) + ("-p"@ + hap_pop_tail(c))
}

proof fn lemma_hap_shape(c: HapRunConfig)
    ensures
        c.spec_slug() == "hap-i"@ + (dec(c.iota_max as nat) + ("-r"@ + hap_rho_tail(c))),
{
    assert(c.spec_slug() =~= "hap-i"@ + (dec(c.iota_max as nat) + ("-r"@ + hap_rho_tail(c))));
}

/// Two survivor fragments followed by `-s` texts agree on the mode, on the
/// cap, and on what follows.
proof fn lemma_survivor_peel(
    m1: HapSurvivorMode,
    c1: nat,
    t1: Seq<char>,
    m2: HapSurvivorMode,
    c2: nat,
    t2: Seq<char>,
)
    requires
        survivor_slug(m1, c1) + t1 == survivor_slug(m2, c2) + t2,
        t1.len() > 0 && t1[0] == '-',
        t2.len() > 0 && t2[0] == '-',
    ensures
        m1 == m2,
        c1 == c2,
        t1 == t2,
{
    reveal_strlit("greedy1-");
    reveal_strlit("elitist");
    reveal_strlit("pareto");
    let s1 = survivor_slug(m1, c1) + t1;
    if m1 != m2 {
        assert(s1[0] == survivor_slug(m1, c1)[0]);
        assert((survivor_slug(m2, c2) + t2)[0] == survivor_slug(m2, c2)[0]);
        assert(false);
    }
    match m1 {
        HapSurvivorMode::GreedyOne => {
            assert(s1 =~= "greedy1-"@ + (dec(c1) + t1));
            assert(survivor_slug(m2, c2) + t2 =~= "greedy1-"@ + (dec(c2) + t2));
            lemma_peel("greedy1-"@, c1, t1, c2, t2);
        },
        HapSurvivorMode::ElitistTopK => {
            assert(s1 =~= "elitist"@ + (dec(c1) + t1));
            assert(survivor_slug(m2, c2) + t2 =~= "elitist"@ + (dec(c2) + t2));
            lemma_peel("elitist"@, c1, t1, c2, t2);
        },
        HapSurvivorMode::ParetoFront => {
            assert(s1 =~= "pareto"@ + (dec(c1) + t1));
            assert(survivor_slug(m2, c2) + t2 =~= "pareto"@ + (dec(c2) + t2));
            lemma_peel("pareto"@, c1, t1, c2, t2);
        },
    }
}

/// Two HAP configurations with the same slug are the same configuration:
/// the slug encodes every HAP axis.
pub proof fn lemma_hap_slug_injective(a: HapRunConfig, b: HapRunConfig)
    requires
        a.spec_slug() == b.spec_slug(),
    ensures
        a == b,
{
    let ts1 = "-s"@ + dec(a.seed as nat);
    let ts2 = "-s"@ + dec(b.seed as nat);
    let tv1 = hap_survivor_tail(a);
    let tv2 = hap_survivor_tail(b);
    let tp1 = hap_pop_tail(a);
    let tp2 = hap_pop_tail(b);
    let tr1 = hap_rho_tail(a);
    let tr2 = hap_rho_tail(b);
    lemma_hap_shape(a);
    lemma_hap_shape(b);
    assert("-r"@.len() > 0 && "-r"@[0] == '-' && "-p"@.len() > 0 && "-p"@[0] == '-' && "-"@.len()
        > 0 && "-"@[0] == '-' && "-s"@.len() > 0 && "-s"@[0] == '-') by {
        reveal_strlit("-r");
        reveal_strlit("-p");
        reveal_strlit("-");
        reveal_strlit("-s");
    }
    lemma_starts_with_dash("-r"@, tr1);
    lemma_starts_with_dash("-r"@, tr2);
    lemma_peel("hap-i"@, a.iota_max as nat, "-r"@ + tr1, b.iota_max as nat, "-r"@ + tr2);
    lemma_starts_with_dash("-p"@, tp1);
    lemma_starts_with_dash("-p"@, tp2);
    lemma_peel("-r"@, a.rho as nat, "-p"@ + tp1, b.rho as nat, "-p"@ + tp2);
    lemma_starts_with_dash("-"@, tv1);
    lemma_starts_with_dash("-"@, tv2);
    lemma_peel("-p"@, a.population_size as nat, "-"@ + tv1, b.population_size as nat, "-"@ + tv2);
    lemma_strip("-"@, tv1, tv2);
    lemma_starts_with_dash("-s"@, dec(a.seed as nat));
    lemma_starts_with_dash("-s"@, dec(b.seed as nat));
    lemma_survivor_peel(
        a.survivor_mode,
        a.survivor_cap as nat,
        ts1,
        b.survivor_mode,
        b.survivor_cap as nat,
        ts2,
    );
    lemma_strip("-s"@, dec(a.seed as nat), dec(b.seed as nat));
    lemma_dec_injective(a.seed as nat, b.seed as nat);
}

} // verus!
