use vstd::prelude::*;

use crate::error::GaugeError;
use crate::ledger::{ledger_find, row_of};
use crate::select::{select, selected_set_of, set_view, totals_of};
use crate::state::{
    has_option, powers_view, stored_set_view, wf, Gauge, GaugeController, Vote,
    VoteInfo, VoteInfoView, DEFAULT_LIMIT, MAX_LIMIT, MAX_TOTAL_SUPPORT,
};
use crate::strorder::{lex_lt, str_lt};
use crate::tally::{find_option, option_total, options_view, rows_view, support_total, tally};

verus! {

/// The page size a list query actually serves: the default when the
/// caller gives none, the caller's wish clamped to the maximum otherwise.
pub open spec fn spec_limit(limit: Option<u32>) -> u32 {
    match limit {
        None => DEFAULT_LIMIT,
        Some(l) => if l > MAX_LIMIT {
            MAX_LIMIT
        } else {
            l
        },
    }
}

fn clamp_limit(limit: Option<u32>) -> (l: u32)
    ensures
        l == spec_limit(limit),
{
    match limit {
        None => DEFAULT_LIMIT,
        Some(l) => if l > MAX_LIMIT {
            MAX_LIMIT
        } else {
            l
        },
    }
}

/// Position of `o` in a duplicate-free registry.
pub open spec fn option_index(options: Seq<Seq<char>>, o: Seq<char>) -> int {
    choose|i: int| 0 <= i < options.len() && options[i] == o
}

/// The ledger rows whose voter sorts strictly after `start`, in ledger
/// order.
pub open spec fn rows_after(rows: Seq<VoteInfoView>, start: Seq<char>) -> Seq<VoteInfoView>
    decreases rows.len(),
{
    if rows.len() == 0 {
        Seq::empty()
    } else {
        let pre = rows_after(rows.drop_last(), start);
        if lex_lt(start, rows.last().voter) {
            pre.push(rows.last())
        } else {
            pre
        }
    }
}

impl Gauge {
    /// A field-for-field copy of the configuration and schedule.
    pub fn snapshot(&self) -> (g: Gauge)
        ensures
            g@ == self@,
    {
        Gauge {
            title: self.title.clone(),
            adapter: self.adapter.clone(),
            epoch_size: self.epoch_size,
            min_percent_selected: self.min_percent_selected,
            max_options_selected: self.max_options_selected,
            max_available_percentage: self.max_available_percentage,
            is_stopped: self.is_stopped,
            next_epoch: self.next_epoch,
        }
    }
}

/// A deep copy of one ledger row.
fn clone_row(row: &VoteInfo) -> (r: VoteInfo)
    ensures
        r@ == row@,
{
    let mut votes: Vec<Vote> = Vec::new();
    let mut i: usize = 0;
    while i < row.votes.len()
        invariant
            0 <= i <= row.votes.len(),
            votes@.len() == i,
            forall|j: int| 0 <= j < i ==> #[trigger] votes@[j]@ == row.votes@[j]@,
        decreases row.votes.len() - i,
    {
        votes.push(Vote { option: row.votes[i].option.clone(), weight: row.votes[i].weight });
        i = i + 1;
    }
    let r = VoteInfo { voter: row.voter.clone(), votes };
    proof {
        assert(r@.votes =~= row@.votes);
    }
    r
}

impl GaugeController {
    /// The stored configuration and schedule of one gauge.
    pub fn gauge(&self, gauge_id: u64) -> (r: Result<&Gauge, GaugeError>)
        ensures
            match r {
                Ok(g) => (gauge_id as int) < self@.gauges.len() && g@ == self@.gauges[gauge_id as int].gauge,
                Err(e) => e == GaugeError::GaugeNotFound && gauge_id as int >= self@.gauges.len(),
            },
    {
        if gauge_id >= self.gauges.len() as u64 {
            return Err(GaugeError::GaugeNotFound);
        }
        Ok(&self.gauges[gauge_id as usize].gauge)
    }

    /// A page of gauges, by ascending id, resuming after `start_after`.
    pub fn list_gauges(&self, start_after: Option<u64>, limit: Option<u32>) -> (r: Vec<
        (u64, Gauge),
    >)
        ensures
            ({
                let n = self@.gauges.len() as int;
                let start = match start_after {
                    None => 0int,
                    Some(s) => s as int + 1,
                };
                let lim = spec_limit(limit) as int;
                let cnt = if start >= n {
                    0int
                } else if n - start > lim {
                    lim
                } else {
                    n - start
                };
                &&& r@.len() == cnt
                &&& forall|j: int|
                    0 <= j < cnt ==> (#[trigger] r@[j]).0 == start + j && r@[j].1@
                        == self@.gauges[start + j].gauge
            }),
    {
        let n = self.gauges.len();
        let start: usize = match start_after {
            None => 0,
            Some(s) => {
                if s >= n as u64 {
                    n
                } else {
                    proof {
                        assert(self.gauges@.len() == self.gauges.len());
                    }
                    (s as usize) + 1
                }
            },
        };
        let lim = clamp_limit(limit) as usize;
        let mut out: Vec<(u64, Gauge)> = Vec::new();
        let mut i: usize = start;
        while i < n && out.len() < lim
            invariant
                n == self.gauges.len(),
                start <= i <= n,
                out@.len() == i - start,
                out@.len() <= lim,
                forall|j: int|
                    0 <= j < out@.len() ==> (#[trigger] out@[j]).0 == start + j && out@[j].1@
                        == self@.gauges[start + j].gauge,
            decreases n - i,
        {
            out.push((i as u64, self.gauges[i].gauge.snapshot()));
            i = i + 1;
        }
        out
    }

    /// A page of a gauge's registered options in registration order, each
    /// with its current weighted support under the given power snapshot.
    /// Resumes after the named option, which must be registered.
    pub fn list_options(
        &self,
        gauge_id: u64,
        powers: &Vec<(String, u64)>,
        start_after: Option<&String>,
        limit: Option<u32>,
    ) -> (r: Result<Vec<(String, u128)>, GaugeError>)
        requires
            wf(self@),
        ensures
            gauge_id as int >= self@.gauges.len() ==> r == Err::<Vec<(String, u128)>, GaugeError>(
                GaugeError::GaugeNotFound,
            ),
            (gauge_id as int) < self@.gauges.len() ==> {
                let s = self@.gauges[gauge_id as int];
                let pv = powers_view(powers@);
                match start_after {
                    Some(o) => !has_option(s.options, o@) ==> r == Err::<Vec<(String, u128)>, GaugeError>(
                        GaugeError::OptionNotFound,
                    ),
                    None => true,
                }
            },
            (gauge_id as int) < self@.gauges.len() && (match start_after {
                Some(o) => has_option(self@.gauges[gauge_id as int].options, o@),
                None => true,
            }) ==> {
                let s = self@.gauges[gauge_id as int];
                let pv = powers_view(powers@);
                if support_total(s.votes, pv) > MAX_TOTAL_SUPPORT {
                    r == Err::<Vec<(String, u128)>, GaugeError>(GaugeError::Overflow)
                } else {
                    match r {
                        Ok(page) => {
                            let n = s.options.len() as int;
                            let start = match start_after {
                                None => 0int,
                                Some(o) => option_index(s.options, o@) + 1,
                            };
                            let lim = spec_limit(limit) as int;
                            let cnt = if start >= n {
                                0int
                            } else if n - start > lim {
                                lim
                            } else {
                                n - start
                            };
                            &&& page@.len() == cnt
                            &&& forall|j: int|
                                0 <= j < cnt ==> (#[trigger] page@[j]).0@ == s.options[start + j]
                                    && page@[j].1 as nat == option_total(
                                    s.votes,
                                    pv,
                                    s.options[start + j],
                                )
                        },
                        Err(_) => false,
                    }
                }
            },
    {
        if gauge_id >= self.gauges.len() as u64 {
            return Err(GaugeError::GaugeNotFound);
        }
        let idx = gauge_id as usize;
        let ghost s = self@.gauges[gauge_id as int];
        let ghost pv = powers_view(powers@);
        let options = &self.gauges[idx].options;
        let start: usize = match start_after {
            None => 0,
            Some(o) => {
                match find_option(options, o) {
                    None => {
                        return Err(GaugeError::OptionNotFound);
                    },
                    Some(i) => {
                        proof {
                            assert(s.options[i as int] == o@);
                            let ci = option_index(s.options, o@);
                            assert(0 <= ci < s.options.len() && s.options[ci] == o@);
                            if ci != i as int {
                                assert(false);
                            }
                        }
                        i + 1
                    },
                }
            },
        };
        proof {
            assert(options_view(self.gauges@[idx as int].options@) == s.options);
            assert(rows_view(self.gauges@[idx as int].votes@) == s.votes);
        }
        let (totals, _grand) = match tally(options, &self.gauges[idx].votes, powers) {
            Err(e) => {
                return Err(e);
            },
            Ok(p) => p,
        };
        let lim = clamp_limit(limit) as usize;
        let n = options.len();
        let mut out: Vec<(String, u128)> = Vec::new();
        let mut i: usize = start;
        while i < n && out.len() < lim
            invariant
                s == self@.gauges[gauge_id as int],
                pv == powers_view(powers@),
                options == self.gauges@[gauge_id as int].options,
                options_view(options@) == s.options,
                n == options.len(),
                s.options.len() == n,
                totals.len() == n,
                forall|t: int|
                    0 <= t < n ==> #[trigger] totals[t] as nat == option_total(
                        s.votes,
                        pv,
                        s.options[t],
                    ),
                start <= i <= n,
                out@.len() == i - start,
                out@.len() <= lim,
                forall|j: int|
                    0 <= j < out@.len() ==> (#[trigger] out@[j]).0@ == s.options[start + j]
                        && out@[j].1 as nat == option_total(s.votes, pv, s.options[start + j]),
            decreases n - i,
        {
            out.push((options[i].clone(), totals[i]));
            i = i + 1;
        }
        Ok(out)
    }

    /// The selected set a gauge would execute right now under the given
    /// power snapshot.  Read-only, never epoch-gated, and available on
    /// stopped gauges as well.
    pub fn selected_set(&self, gauge_id: u64, powers: &Vec<(String, u64)>) -> (r: Result<
        Vec<(String, u128)>,
        GaugeError,
    >)
        requires
            wf(self@),
        ensures
            gauge_id as int >= self@.gauges.len() ==> r == Err::<Vec<(String, u128)>, GaugeError>(
                GaugeError::GaugeNotFound,
            ),
            (gauge_id as int) < self@.gauges.len() ==> {
                let s = self@.gauges[gauge_id as int];
                let pv = powers_view(powers@);
                if support_total(s.votes, pv) > MAX_TOTAL_SUPPORT {
                    r == Err::<Vec<(String, u128)>, GaugeError>(GaugeError::Overflow)
                } else {
                    match r {
                        Ok(set) => set_view(set@) == selected_set_of(s, pv),
                        Err(_) => false,
                    }
                }
            },
    {
        if gauge_id >= self.gauges.len() as u64 {
            return Err(GaugeError::GaugeNotFound);
        }
        let idx = gauge_id as usize;
        let ghost s = self@.gauges[gauge_id as int];
        let ghost pv = powers_view(powers@);
        proof {
            assert(options_view(self.gauges@[idx as int].options@) == s.options);
            assert(rows_view(self.gauges@[idx as int].votes@) == s.votes);
        }
        let (totals, grand) = match tally(
            &self.gauges[idx].options,
            &self.gauges[idx].votes,
            powers,
        ) {
            Err(e) => {
                return Err(e);
            },
            Ok(p) => p,
        };
        let set = select(
            &self.gauges[idx].options,
            &totals,
            grand,
            self.gauges[idx].gauge.min_percent_selected,
            self.gauges[idx].gauge.max_options_selected,
            self.gauges[idx].gauge.max_available_percentage,
        );
        proof {
            let tot_nats = totals@.map_values(|t: u128| t as nat);
            assert(tot_nats =~= totals_of(s.options, s.votes, pv));
            assert(set_view(set@) =~= selected_set_of(s, pv));
        }
        Ok(set)
    }

    /// The set recorded by the gauge's latest successful execution, if
    /// any execution has succeeded yet.
    pub fn last_executed_set(&self, gauge_id: u64) -> (r: Result<
        &Option<Vec<(String, u128)>>,
        GaugeError,
    >)
        ensures
            match r {
                Ok(os) => (gauge_id as int) < self@.gauges.len() && (match *os {
                    Some(v) => self@.gauges[gauge_id as int].last_executed_set == Some(
                        stored_set_view(v@),
                    ),
                    None => self@.gauges[gauge_id as int].last_executed_set
                        == None::<Seq<(Seq<char>, u128)>>,
                }),
                Err(e) => e == GaugeError::GaugeNotFound && gauge_id as int
                    >= self@.gauges.len(),
            },
    {
        if gauge_id >= self.gauges.len() as u64 {
            return Err(GaugeError::GaugeNotFound);
        }
        Ok(&self.gauges[gauge_id as usize].last_executed_set)
    }

    /// The allocation a voter currently has stored in a gauge, if any.
    pub fn vote(&self, gauge_id: u64, voter: &String) -> (r: Result<Option<&VoteInfo>, GaugeError>)
        ensures
            match r {
                Ok(o) => (gauge_id as int) < self@.gauges.len() && (match o {
                    Some(vi) => vi@.voter == voter@ && row_of(
                        self@.gauges[gauge_id as int].votes,
                        voter@,
                    ) == Some(vi@.votes),
                    None => row_of(self@.gauges[gauge_id as int].votes, voter@)
                        == None::<Seq<crate::state::VoteView>>,
                }),
                Err(e) => e == GaugeError::GaugeNotFound && gauge_id as int
                    >= self@.gauges.len(),
            },
    {
        if gauge_id >= self.gauges.len() as u64 {
            return Err(GaugeError::GaugeNotFound);
        }
        let idx = gauge_id as usize;
        proof {
            assert(rows_view(self.gauges@[idx as int].votes@) == self@.gauges[idx as int].votes);
        }
        match ledger_find(&self.gauges[idx].votes, voter) {
            Some(i) => Ok(Some(&self.gauges[idx].votes[i])),
            None => Ok(None),
        }
    }

    /// A page of the gauge's stored allocations, ordered by voter
    /// identity, resuming strictly after `start_after`.
    pub fn list_votes(
        &self,
        gauge_id: u64,
        start_after: Option<&String>,
        limit: Option<u32>,
    ) -> (r: Result<Vec<VoteInfo>, GaugeError>)
        ensures
            match r {
                Ok(page) => (gauge_id as int) < self@.gauges.len() && {
                    let s = self@.gauges[gauge_id as int];
                    let base = match start_after {
                        None => s.votes,
                        Some(v) => rows_after(s.votes, v@),
                    };
                    let lim = spec_limit(limit) as int;
                    let cnt = if base.len() > lim {
                        lim
                    } else {
                        base.len() as int
                    };
                    rows_view(page@) == base.take(cnt)
                },
                Err(e) => e == GaugeError::GaugeNotFound && gauge_id as int
                    >= self@.gauges.len(),
            },
    {
        if gauge_id >= self.gauges.len() as u64 {
            return Err(GaugeError::GaugeNotFound);
        }
        let idx = gauge_id as usize;
        let ghost s = self@.gauges[gauge_id as int];
        let rows = &self.gauges[idx].votes;
        proof {
            assert(rows_view(rows@) == s.votes);
            assert(s.votes.take(0) =~= Seq::<VoteInfoView>::empty());
        }
        let mut out: Vec<VoteInfo> = Vec::new();
        let mut i: usize = 0;
        while i < rows.len()
            invariant
                s == self@.gauges[gauge_id as int],
                rows == self.gauges@[gauge_id as int].votes,
                rows_view(rows@) == s.votes,
                s.votes.len() == rows.len(),
                0 <= i <= rows.len(),
                rows_view(out@) == (match start_after {
                    None => s.votes.take(i as int),
                    Some(v) => rows_after(s.votes.take(i as int), v@),
                }),
            decreases rows.len() - i,
        {
            let keep = match start_after {
                None => true,
                Some(v) => str_lt(v, &rows[i].voter),
            };
            if keep {
                out.push(clone_row(&rows[i]));
            }
            proof {
                let tk1 = s.votes.take(i as int + 1);
                assert(tk1.drop_last() =~= s.votes.take(i as int));
                assert(tk1.last() == s.votes[i as int]);
                if keep {
                    assert(rows_view(out@) =~= rows_view(out@.drop_last()).push(
                        s.votes[i as int],
                    ));
                }
            }
            i = i + 1;
        }
        proof {
            assert(s.votes.take(s.votes.len() as int) =~= s.votes);
        }
        let lim = clamp_limit(limit) as usize;
        let ghost collected = out@;
        out.truncate(lim);
        proof {
            let base = match start_after {
                None => s.votes,
                Some(v) => rows_after(s.votes, v@),
            };
            let cnt = if base.len() > spec_limit(limit) as int {
                spec_limit(limit) as int
            } else {
                base.len() as int
            };
            if lim <= collected.len() {
                assert(out@ =~= collected.subrange(0, lim as int));
            }
            assert(rows_view(out@) =~= base.take(cnt));
        }
        Ok(out)
    }
}

} // verus!
