use vstd::prelude::*;

use crate::strorder::lex_lt;

verus! {

/// One whole unit of fractional weight: weights, thresholds and caps are
/// fixed-point fractions carried as atomics of `1 / SCALE`.
pub const SCALE: u64 = 1_000_000_000;

/// The largest grand total of weighted support the engine accepts in one
/// tally: `u128::MAX / SCALE`, so that every threshold and cap product
/// still fits in a `u128`.
pub const MAX_TOTAL_SUPPORT: u128 = 340_282_366_920_938_463_463_374_607_431;

/// Page size used by the list queries when the caller gives none.
pub const DEFAULT_LIMIT: u32 = 30;

/// Largest page size a list query will serve; larger requests are clamped.
pub const MAX_LIMIT: u32 = 100;

/// One entry of a voter's allocation: a registered option and the
/// fraction of the voter's power assigned to it, in atomics of `SCALE`.
pub struct Vote {
    pub option: String,
    pub weight: u64,
}

/// Mathematical content of a `Vote`.
pub struct VoteView {
    pub option: Seq<char>,
    pub weight: u64,
}

impl View for Vote {
    type V = VoteView;

    open spec fn view(&self) -> VoteView {
        VoteView { option: self.option@, weight: self.weight }
    }
}

/// A voter's current allocation within one gauge.
pub struct VoteInfo {
    pub voter: String,
    pub votes: Vec<Vote>,
}

/// Mathematical content of a `VoteInfo`.
pub struct VoteInfoView {
    pub voter: Seq<char>,
    pub votes: Seq<VoteView>,
}

impl View for VoteInfo {
    type V = VoteInfoView;

    open spec fn view(&self) -> VoteInfoView {
        VoteInfoView { voter: self.voter@, votes: self.votes@.map_values(|v: Vote| v@) }
    }
}

/// Configuration and schedule of one gauge.
pub struct Gauge {
    /// Human readable title; not interpreted by the engine.
    pub title: String,
    /// Address or handle of the external adapter that consumes the
    /// selected set; opaque to the engine.
    pub adapter: String,
    /// Seconds between permitted executions.
    pub epoch_size: u64,
    /// An option must reach this fraction of the grand total to be
    /// selected, when configured.
    pub min_percent_selected: Option<u64>,
    /// Hard cap on the size of a selected set.
    pub max_options_selected: u32,
    /// Ceiling on the fraction of the grand total a single winner may
    /// claim, when configured; the excess is dropped, not redistributed.
    pub max_available_percentage: Option<u64>,
    /// A stopped gauge rejects every mutation, forever.
    pub is_stopped: bool,
    /// Earliest time at which the next execution may run.
    pub next_epoch: u64,
}

/// Mathematical content of a `Gauge`.
pub struct GaugeSnap {
    pub title: Seq<char>,
    pub adapter: Seq<char>,
    pub epoch_size: u64,
    pub min_percent_selected: Option<u64>,
    pub max_options_selected: u32,
    pub max_available_percentage: Option<u64>,
    pub is_stopped: bool,
    pub next_epoch: u64,
}

impl View for Gauge {
    type V = GaugeSnap;

    open spec fn view(&self) -> GaugeSnap {
        GaugeSnap {
            title: self.title@,
            adapter: self.adapter@,
            epoch_size: self.epoch_size,
            min_percent_selected: self.min_percent_selected,
            max_options_selected: self.max_options_selected,
            max_available_percentage: self.max_available_percentage,
            is_stopped: self.is_stopped,
            next_epoch: self.next_epoch,
        }
    }
}

/// The tunables an owner supplies when creating a gauge.
pub struct GaugeConfig {
    pub title: String,
    pub adapter: String,
    pub epoch_size: u64,
    pub min_percent_selected: Option<u64>,
    pub max_options_selected: u32,
    pub max_available_percentage: Option<u64>,
}

/// One gauge with everything it owns: its configuration, its option
/// registry in insertion order, its vote ledger sorted by voter, and the
/// set recorded by the latest successful execution.
pub struct GaugeState {
    pub gauge: Gauge,
    pub options: Vec<String>,
    pub votes: Vec<VoteInfo>,
    pub last_executed_set: Option<Vec<(String, u128)>>,
}

/// Mathematical content of a `GaugeState`.
pub struct GaugeStateView {
    pub gauge: GaugeSnap,
    pub options: Seq<Seq<char>>,
    pub votes: Seq<VoteInfoView>,
    pub last_executed_set: Option<Seq<(Seq<char>, u128)>>,
}

impl View for GaugeState {
    type V = GaugeStateView;

    open spec fn view(&self) -> GaugeStateView {
        GaugeStateView {
            gauge: self.gauge@,
            options: self.options@.map_values(|o: String| o@),
            votes: self.votes@.map_values(|r: VoteInfo| r@),
            last_executed_set: match self.last_executed_set {
                Some(s) => Some(stored_set_view(s@)),
                None => None,
            },
        }
    }
}

/// The whole engine: the owner authorized to reconfigure gauges, and the
/// gauges themselves, identified by their index.
pub struct GaugeController {
    pub owner: String,
    pub gauges: Vec<GaugeState>,
}

/// Mathematical content of a `GaugeController`.
pub struct ControllerView {
    pub owner: Seq<char>,
    pub gauges: Seq<GaugeStateView>,
}

impl View for GaugeController {
    type V = ControllerView;

    open spec fn view(&self) -> ControllerView {
        ControllerView {
            owner: self.owner@,
            gauges: self.gauges@.map_values(|g: GaugeState| g@),
        }
    }
}

/// Deep view of a vote list.
pub open spec fn votes_view(vs: Seq<Vote>) -> Seq<VoteView> {
    vs.map_values(|v: Vote| v@)
}

/// Deep view of a selected set as it is stored and handed out.
pub open spec fn stored_set_view(s: Seq<(String, u128)>) -> Seq<(Seq<char>, u128)> {
    s.map_values(|p: (String, u128)| (p.0@, p.1))
}

/// Deep view of a voting power snapshot: pairs of voter and current power.
pub open spec fn powers_view(p: Seq<(String, u64)>) -> Seq<(Seq<char>, u64)> {
    p.map_values(|t: (String, u64)| (t.0@, t.1))
}

/// Deep view of a selected set as handed out by the engine.
pub open spec fn set_view(s: Seq<(String, u128)>) -> Seq<(Seq<char>, u128)> {
    s.map_values(|p: (String, u128)| (p.0@, p.1))
}

/// Sum of the weights of an allocation, in atomics.
pub open spec fn row_sum(votes: Seq<VoteView>) -> nat
    decreases votes.len(),
{
    if votes.len() == 0 {
        0
    } else {
        row_sum(votes.drop_last()) + votes.last().weight as nat
    }
}

/// Whether `opt` is registered among `options`.
pub open spec fn has_option(options: Seq<Seq<char>>, opt: Seq<char>) -> bool {
    exists|i: int| 0 <= i < options.len() && options[i] == opt
}

/// A registry holds each option at most once.
pub open spec fn options_wf(options: Seq<Seq<char>>) -> bool {
    forall|i: int, j: int| 0 <= i < j < options.len() ==> options[i] != options[j]
}

/// A stored allocation is non-empty, references only registered options,
/// references no option twice, gives every entry positive weight, and its
/// weights sum to at most one.
pub open spec fn votes_wf(votes: Seq<VoteView>, options: Seq<Seq<char>>) -> bool {
    &&& votes.len() > 0
    &&& forall|i: int| 0 <= i < votes.len() ==> votes[i].weight > 0
    &&& forall|i: int, j: int| 0 <= i < j < votes.len() ==> votes[i].option != votes[j].option
    &&& forall|i: int| 0 <= i < votes.len() ==> has_option(options, #[trigger] votes[i].option)
    &&& row_sum(votes) <= SCALE
}

/// The constraints a submitted allocation must meet on its own: positive
/// weights, no option referenced twice, and weights summing to at most
/// one whole.
pub open spec fn votes_ok(votes: Seq<VoteView>) -> bool {
    &&& forall|i: int| 0 <= i < votes.len() ==> (#[trigger] votes[i]).weight > 0
    &&& forall|i: int, j: int| 0 <= i < j < votes.len() ==> votes[i].option != votes[j].option
    &&& row_sum(votes) <= SCALE
}

/// Whether every option a submitted allocation references is registered.
pub open spec fn votes_known(votes: Seq<VoteView>, options: Seq<Seq<char>>) -> bool {
    forall|i: int| 0 <= i < votes.len() ==> has_option(options, (#[trigger] votes[i]).option)
}

/// The ledger is strictly sorted by voter identity, so each voter holds
/// at most one row.
pub open spec fn rows_sorted(rows: Seq<VoteInfoView>) -> bool {
    forall|i: int, j: int| 0 <= i < j < rows.len() ==> lex_lt(rows[i].voter, rows[j].voter)
}

/// The ledger is strictly sorted by voter, and every row is itself well
/// formed.
pub open spec fn rows_wf(rows: Seq<VoteInfoView>, options: Seq<Seq<char>>) -> bool {
    &&& forall|i: int| 0 <= i < rows.len() ==> votes_wf(#[trigger] rows[i].votes, options)
    &&& rows_sorted(rows)
}

/// Configured fractions never exceed one whole, and an epoch is at least
/// one second long.
pub open spec fn gauge_wf(g: GaugeSnap) -> bool {
    &&& g.epoch_size >= 1
    &&& match g.min_percent_selected {
        Some(m) => 0 < m <= SCALE,
        None => true,
    }
    &&& match g.max_available_percentage {
        Some(c) => 0 < c <= SCALE,
        None => true,
    }
}

pub open spec fn state_wf(s: GaugeStateView) -> bool {
    &&& gauge_wf(s.gauge)
    &&& options_wf(s.options)
    &&& rows_wf(s.votes, s.options)
}

/// Invariant of the whole engine: every gauge is well formed.  Freshly
/// built engines satisfy it and every operation preserves it.
pub open spec fn wf(c: ControllerView) -> bool {
    forall|i: int| 0 <= i < c.gauges.len() ==> state_wf(#[trigger] c.gauges[i])
}

/// The threshold in atomics: an absent threshold demands nothing.
pub open spec fn min_atomics(min: Option<u64>) -> nat {
    match min {
        Some(m) => m as nat,
        None => 0,
    }
}

/// The cap in atomics: an absent cap allows the whole grand total.
pub open spec fn cap_atomics(cap: Option<u64>) -> nat {
    match cap {
        Some(c) => c as nat,
        None => SCALE as nat,
    }
}

/// Whether the configuration a caller supplies is acceptable: fractions
/// at most one whole and a positive epoch length.
pub open spec fn config_ok(c: GaugeConfig) -> bool {
    &&& c.epoch_size >= 1
    &&& match c.min_percent_selected {
        Some(m) => 0 < m <= SCALE,
        None => true,
    }
    &&& match c.max_available_percentage {
        Some(p) => 0 < p <= SCALE,
        None => true,
    }
}

} // verus!
