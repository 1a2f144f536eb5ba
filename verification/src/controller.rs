use vstd::prelude::*;

use crate::error::GaugeError;
use crate::ledger::{
    ledger_place, ledger_remove, lemma_place_elem_of, lemma_place_row_sorted,
    lemma_remove_elem_of, lemma_remove_row_sorted, place_row, remove_row,
};
use crate::state::{
    config_ok, has_option, options_wf, row_sum, state_wf, votes_known, votes_ok,
    votes_view, votes_wf, wf, Gauge, GaugeConfig, GaugeController, GaugeSnap,
    GaugeState, GaugeStateView, Vote, VoteInfo, VoteInfoView, VoteView, SCALE,
};
use crate::select::{select, selected_set_of, set_view};
use crate::state::stored_set_view;
use crate::tally::{
    find_option, lemma_row_sum_prefix_le, options_view, rows_view, support_total,
    tally,
};
use crate::state::MAX_TOTAL_SUPPORT;

verus! {

/// Option registry seeding: the options in first-seen order, each kept
/// once.
pub open spec fn dedup_options(opts: Seq<Seq<char>>) -> Seq<Seq<char>>
    decreases opts.len(),
{
    if opts.len() == 0 {
        Seq::empty()
    } else {
        let pre = dedup_options(opts.drop_last());
        if has_option(pre, opts.last()) {
            pre
        } else {
            pre.push(opts.last())
        }
    }
}

pub proof fn lemma_dedup_options_wf(opts: Seq<Seq<char>>)
    ensures
        options_wf(dedup_options(opts)),
    decreases opts.len(),
{
    if opts.len() > 0 {
        lemma_dedup_options_wf(opts.drop_last());
        let pre = dedup_options(opts.drop_last());
        let out = dedup_options(opts);
        if !has_option(pre, opts.last()) {
            assert forall|i: int, j: int| 0 <= i < j < out.len() implies out[i] != out[j] by {
                if j == out.len() - 1 {
                    assert(out[i] == pre[i]);
                    assert(!(exists|t: int| 0 <= t < pre.len() && pre[t] == opts.last()));
                }
            }
        }
    }
}

/// Drops repeated entries from a seeded option list, keeping first
/// occurrences in order.
fn dedup_seed(initial: Vec<String>) -> (r: Vec<String>)
    ensures
        options_view(r@) == dedup_options(options_view(initial@)),
{
    let ghost iv = options_view(initial@);
    let mut out: Vec<String> = Vec::new();
    proof {
        assert(iv.take(0) =~= Seq::<Seq<char>>::empty());
    }
    let mut i: usize = 0;
    while i < initial.len()
        invariant
            iv == options_view(initial@),
            iv.len() == initial.len(),
            0 <= i <= initial.len(),
            options_view(out@) == dedup_options(iv.take(i as int)),
        decreases initial.len() - i,
    {
        let present = match find_option(&out, &initial[i]) {
            Some(_) => true,
            None => false,
        };
        if !present {
            out.push(initial[i].clone());
        }
        proof {
            let tk1 = iv.take(i as int + 1);
            assert(tk1.drop_last() =~= iv.take(i as int));
            assert(tk1.last() == iv[i as int]);
            if !present {
                assert(options_view(out@) =~= dedup_options(iv.take(i as int)).push(iv[i as int]));
            }
        }
        i = i + 1;
    }
    proof {
        assert(iv.take(initial@.len() as int) =~= iv);
    }
    out
}

impl GaugeController {
    /// A fresh engine with no gauges, owned by `owner`.
    pub fn new(owner: String) -> (c: GaugeController)
        ensures
            c@.owner == owner@,
            c@.gauges.len() == 0,
            wf(c@),
    {
        GaugeController { owner, gauges: Vec::new() }
    }

    /// Creates a gauge from an owner-authorized configuration, seeding
    /// its registry with the adapter's option list (duplicates dropped).
    /// The first execution becomes due one epoch from `now`.
    pub fn create_gauge(
        &mut self,
        sender: &String,
        now: u64,
        config: GaugeConfig,
        initial_options: Vec<String>,
    ) -> (r: Result<u64, GaugeError>)
        requires
            wf(old(self)@),
            config_ok(config),
            now + config.epoch_size <= u64::MAX,
        ensures
            wf(final(self)@),
            final(self)@.owner == old(self)@.owner,
            sender@ != old(self)@.owner ==> r == Err::<u64, GaugeError>(GaugeError::Unauthorized)
                && final(self)@ == old(self)@,
            sender@ == old(self)@.owner ==> {
                &&& r == Ok::<u64, GaugeError>(old(self)@.gauges.len() as u64)
                &&& final(self)@.gauges == old(self)@.gauges.push(
                    GaugeStateView {
                        gauge: GaugeSnap {
                            title: config.title@,
                            adapter: config.adapter@,
                            epoch_size: config.epoch_size,
                            min_percent_selected: config.min_percent_selected,
                            max_options_selected: config.max_options_selected,
                            max_available_percentage: config.max_available_percentage,
                            is_stopped: false,
                            next_epoch: (now + config.epoch_size) as u64,
                        },
                        options: dedup_options(options_view(initial_options@)),
                        votes: Seq::empty(),
                        last_executed_set: None,
                    },
                )
            },
    {
        if !sender.eq(&self.owner) {
            return Err(GaugeError::Unauthorized);
        }
        let options = dedup_seed(initial_options);
        let state = GaugeState {
            gauge: Gauge {
                title: config.title,
                adapter: config.adapter,
                epoch_size: config.epoch_size,
                min_percent_selected: config.min_percent_selected,
                max_options_selected: config.max_options_selected,
                max_available_percentage: config.max_available_percentage,
                is_stopped: false,
                next_epoch: now + config.epoch_size,
            },
            options,
            votes: Vec::new(),
            last_executed_set: None,
        };
        let id = self.gauges.len() as u64;
        proof {
            lemma_dedup_options_wf(options_view(initial_options@));
        }
        let ghost sv = state@;
        self.gauges.push(state);
        proof {
            assert(self@.gauges =~= old(self)@.gauges.push(sv));
            assert(sv.options == dedup_options(options_view(initial_options@)));
            assert(sv.votes =~= Seq::<VoteInfoView>::empty());
            assert(sv == GaugeStateView {
                gauge: GaugeSnap {
                    title: config.title@,
                    adapter: config.adapter@,
                    epoch_size: config.epoch_size,
                    min_percent_selected: config.min_percent_selected,
                    max_options_selected: config.max_options_selected,
                    max_available_percentage: config.max_available_percentage,
                    is_stopped: false,
                    next_epoch: (now + config.epoch_size) as u64,
                },
                options: dedup_options(options_view(initial_options@)),
                votes: Seq::empty(),
                last_executed_set: None,
            });
            assert forall|i: int| 0 <= i < self@.gauges.len() implies state_wf(
                #[trigger] self@.gauges[i],
            ) by {
                if i < old(self)@.gauges.len() {
                    assert(self@.gauges[i] == old(self)@.gauges[i]);
                }
            }
        }
        Ok(id)
    }

    /// Registers a new option in a gauge; open to voters, so that a new
    /// candidate can be proposed before anyone votes for it.
    pub fn add_option(&mut self, gauge_id: u64, option: String) -> (r: Result<(), GaugeError>)
        requires
            wf(old(self)@),
        ensures
            wf(final(self)@),
            final(self)@.owner == old(self)@.owner,
            gauge_id as int >= old(self)@.gauges.len() ==> r == Err::<(), GaugeError>(
                GaugeError::GaugeNotFound,
            ) && final(self)@ == old(self)@,
            (gauge_id as int) < old(self)@.gauges.len() && old(self)@.gauges[gauge_id as int].gauge.is_stopped
                ==> r == Err::<(), GaugeError>(GaugeError::GaugeStopped) && final(self)@ == old(self)@,
            (gauge_id as int) < old(self)@.gauges.len()
                && !old(self)@.gauges[gauge_id as int].gauge.is_stopped && has_option(
                old(self)@.gauges[gauge_id as int].options,
                option@,
            ) ==> r == Err::<(), GaugeError>(GaugeError::DuplicateOption) && final(self)@ == old(self)@,
            (gauge_id as int) < old(self)@.gauges.len()
                && !old(self)@.gauges[gauge_id as int].gauge.is_stopped && !has_option(
                old(self)@.gauges[gauge_id as int].options,
                option@,
            ) ==> r == Ok::<(), GaugeError>(()) && final(self)@.gauges == old(self)@.gauges.update(
                gauge_id as int,
                GaugeStateView {
                    options: old(self)@.gauges[gauge_id as int].options.push(option@),
                    ..old(self)@.gauges[gauge_id as int]
                },
            ),
    {
        if gauge_id >= self.gauges.len() as u64 {
            return Err(GaugeError::GaugeNotFound);
        }
        let idx = gauge_id as usize;
        if self.gauges[idx].gauge.is_stopped {
            return Err(GaugeError::GaugeStopped);
        }
        match find_option(&self.gauges[idx].options, &option) {
            Some(_) => Err(GaugeError::DuplicateOption),
            None => {
                let ghost ov = option@;
                let g = &mut self.gauges[idx];
                g.options.push(option);
                proof {
                    assert(self.gauges@ == old(self).gauges@.update(
                        idx as int,
                        self.gauges@[idx as int],
                    ));
                    assert(self.gauges@[idx as int].options@ == old(self).gauges@[idx as int].options@.push(option));
                    assert(self.gauges@[idx as int].gauge == old(self).gauges@[idx as int].gauge);
                    assert(self.gauges@[idx as int].votes == old(self).gauges@[idx as int].votes);
                    assert(self.gauges@[idx as int].last_executed_set == old(self).gauges@[idx as int].last_executed_set);
                    assert(self@.gauges[idx as int].options =~= old(self)@.gauges[idx as int].options.push(ov));
                    assert(self@.gauges[idx as int] == GaugeStateView {
                        options: old(self)@.gauges[gauge_id as int].options.push(ov),
                        ..old(self)@.gauges[gauge_id as int]
                    });
                    assert(self@.gauges =~= old(self)@.gauges.update(
                        gauge_id as int,
                        GaugeStateView {
                            options: old(self)@.gauges[gauge_id as int].options.push(ov),
                            ..old(self)@.gauges[gauge_id as int]
                        },
                    ));
                    assert forall|i: int| 0 <= i < self@.gauges.len() implies state_wf(
                        #[trigger] self@.gauges[i],
                    ) by {
                        if i != gauge_id as int {
                            assert(self@.gauges[i] == old(self)@.gauges[i]);
                        } else {
                            lemma_state_wf_option_extend(
                                old(self)@.gauges[i],
                                ov,
                            );
                        }
                    }
                }
                Ok(())
            },
        }
    }
}

/// Checks a submitted allocation against the gauge's registry: its own
/// constraints first, then that every referenced option is registered.
fn validate_votes(votes: &Vec<Vote>, options: &Vec<String>) -> (r: Result<(), GaugeError>)
    ensures
        !votes_ok(votes_view(votes@)) ==> r == Err::<(), GaugeError>(GaugeError::InvalidVoteWeight),
        votes_ok(votes_view(votes@)) && !votes_known(votes_view(votes@), options_view(options@))
            ==> r == Err::<(), GaugeError>(GaugeError::OptionNotFound),
        votes_ok(votes_view(votes@)) && votes_known(votes_view(votes@), options_view(options@))
            ==> r == Ok::<(), GaugeError>(()),
{
    let ghost vv = votes_view(votes@);
    let mut i: usize = 0;
    while i < votes.len()
        invariant
            vv == votes_view(votes@),
            vv.len() == votes.len(),
            0 <= i <= votes.len(),
            forall|t: int| 0 <= t < i ==> (#[trigger] vv[t]).weight > 0,
        decreases votes.len() - i,
    {
        if votes[i].weight == 0 {
            proof {
                assert(vv[i as int].weight == 0);
                assert(!votes_ok(vv));
            }
            return Err(GaugeError::InvalidVoteWeight);
        }
        i = i + 1;
    }
    let mut a: usize = 1;
    while a < votes.len()
        invariant
            vv == votes_view(votes@),
            vv.len() == votes.len(),
            1 <= a <= votes.len() || votes.len() == 0,
            forall|t: int, u: int| 0 <= t < u < a ==> vv[t].option != vv[u].option,
        decreases votes.len() - a,
    {
        let mut b: usize = 0;
        while b < a
            invariant
                vv == votes_view(votes@),
                vv.len() == votes.len(),
                0 <= b <= a < votes.len(),
                forall|t: int| 0 <= t < b ==> vv[t].option != vv[a as int].option,
            decreases a - b,
        {
            if votes[b].option.eq(&votes[a].option) {
                proof {
                    assert(vv[b as int].option == vv[a as int].option);
                    assert(!votes_ok(vv));
                }
                return Err(GaugeError::InvalidVoteWeight);
            }
            b = b + 1;
        }
        a = a + 1;
    }
    proof {
        assert(vv.take(0) =~= Seq::<VoteView>::empty());
    }
    let mut sum: u128 = 0;
    let mut s: usize = 0;
    while s < votes.len()
        invariant
            vv == votes_view(votes@),
            vv.len() == votes.len(),
            0 <= s <= votes.len(),
            sum as nat == row_sum(vv.take(s as int)),
            sum <= SCALE,
        decreases votes.len() - s,
    {
        let w = votes[s].weight;
        proof {
            let tk1 = vv.take(s as int + 1);
            assert(tk1.drop_last() =~= vv.take(s as int));
            assert(tk1.last() == vv[s as int]);
        }
        sum = sum + (w as u128);
        if sum > SCALE as u128 {
            proof {
                lemma_row_sum_prefix_le(vv, s as int + 1);
                assert(row_sum(vv) > SCALE);
                assert(!votes_ok(vv));
            }
            return Err(GaugeError::InvalidVoteWeight);
        }
        s = s + 1;
    }
    proof {
        assert(vv.take(votes@.len() as int) =~= vv);
    }
    let mut k: usize = 0;
    while k < votes.len()
        invariant
            vv == votes_view(votes@),
            vv.len() == votes.len(),
            0 <= k <= votes.len(),
            votes_ok(vv),
            forall|t: int| 0 <= t < k ==> has_option(options_view(options@), (#[trigger] vv[t]).option),
        decreases votes.len() - k,
    {
        match find_option(options, &votes[k].option) {
            Some(_) => {},
            None => {
                proof {
                    assert(!has_option(options_view(options@), vv[k as int].option));
                    assert(!votes_known(vv, options_view(options@)));
                }
                return Err(GaugeError::OptionNotFound);
            },
        }
        k = k + 1;
    }
    Ok(())
}

impl GaugeController {
    /// Stores, replaces or clears one voter's whole allocation for a
    /// gauge.  `None` (or an empty list) clears the voter's row; any
    /// other submission replaces the prior allocation wholesale after
    /// validation, and a rejected submission leaves the prior allocation
    /// untouched.  Voting power is not consulted here: it is read at
    /// execution time.
    pub fn place_votes(
        &mut self,
        gauge_id: u64,
        voter: &String,
        votes: Option<Vec<Vote>>,
    ) -> (r: Result<(), GaugeError>)
        requires
            wf(old(self)@),
        ensures
            wf(final(self)@),
            final(self)@.owner == old(self)@.owner,
            gauge_id as int >= old(self)@.gauges.len() ==> r == Err::<(), GaugeError>(
                GaugeError::GaugeNotFound,
            ) && final(self)@ == old(self)@,
            (gauge_id as int) < old(self)@.gauges.len()
                && old(self)@.gauges[gauge_id as int].gauge.is_stopped ==> r == Err::<(), GaugeError>(
                GaugeError::GaugeStopped,
            ) && final(self)@ == old(self)@,
            (gauge_id as int) < old(self)@.gauges.len()
                && !old(self)@.gauges[gauge_id as int].gauge.is_stopped ==> {
                let s = old(self)@.gauges[gauge_id as int];
                match votes {
                    None => r == Ok::<(), GaugeError>(()) && final(self)@.gauges
                        == old(self)@.gauges.update(
                        gauge_id as int,
                        GaugeStateView { votes: remove_row(s.votes, voter@), ..s },
                    ),
                    Some(vs) => {
                        if vs@.len() == 0 {
                            r == Ok::<(), GaugeError>(()) && final(self)@.gauges
                                == old(self)@.gauges.update(
                                gauge_id as int,
                                GaugeStateView { votes: remove_row(s.votes, voter@), ..s },
                            )
                        } else if !votes_ok(votes_view(vs@)) {
                            r == Err::<(), GaugeError>(GaugeError::InvalidVoteWeight) && final(self)@ == old(self)@
                        } else if !votes_known(votes_view(vs@), s.options) {
                            r == Err::<(), GaugeError>(GaugeError::OptionNotFound) && final(self)@
                                == old(self)@
                        } else {
                            r == Ok::<(), GaugeError>(()) && final(self)@.gauges
                                == old(self)@.gauges.update(
                                gauge_id as int,
                                GaugeStateView {
                                    votes: place_row(
                                        s.votes,
                                        VoteInfoView { voter: voter@, votes: votes_view(vs@) },
                                    ),
                                    ..s
                                },
                            )
                        }
                    },
                }
            },
    {
        if gauge_id >= self.gauges.len() as u64 {
            return Err(GaugeError::GaugeNotFound);
        }
        let idx = gauge_id as usize;
        if self.gauges[idx].gauge.is_stopped {
            return Err(GaugeError::GaugeStopped);
        }
        let ghost s = old(self)@.gauges[gauge_id as int];
        match votes {
            None => {
                self.clear_row(idx, voter);
                Ok(())
            },
            Some(vs) => {
                if vs.len() == 0 {
                    self.clear_row(idx, voter);
                    Ok(())
                } else {
                    match validate_votes(&vs, &self.gauges[idx].options) {
                        Err(e) => Err(e),
                        Ok(()) => {
                            let row = VoteInfo { voter: voter.clone(), votes: vs };
                            let ghost rv = row@;
                            proof {
                                assert(rv.votes == votes_view(row.votes@));
                                assert(votes_wf(rv.votes, s.options));
                            }
                            let g = &mut self.gauges[idx];
                            ledger_place(&mut g.votes, row);
                            proof {
                                assert(self@.gauges[idx as int].votes == place_row(
                                    s.votes,
                                    rv,
                                ));
                                assert(self@.gauges[idx as int].options =~= s.options);
                                assert(self@.gauges[idx as int] == GaugeStateView {
                                    votes: place_row(s.votes, rv),
                                    ..s
                                });
                                assert(self@.gauges =~= old(self)@.gauges.update(
                                    gauge_id as int,
                                    GaugeStateView { votes: place_row(s.votes, rv), ..s },
                                ));
                                lemma_place_row_sorted(s.votes, rv);
                                assert forall|i: int|
                                    0 <= i < place_row(s.votes, rv).len() implies votes_wf(
                                    (#[trigger] place_row(s.votes, rv)[i]).votes,
                                    s.options,
                                ) by {
                                    lemma_place_elem_of(s.votes, rv, i);
                                }
                                assert(state_wf(self@.gauges[idx as int]));
                                assert forall|i: int| 0 <= i < self@.gauges.len() implies state_wf(
                                    #[trigger] self@.gauges[i],
                                ) by {
                                    if i != idx as int {
                                        assert(self@.gauges[i] == old(self)@.gauges[i]);
                                    }
                                }
                            }
                            Ok(())
                        },
                    }
                }
            },
        }
    }

    /// Clears one voter's row of gauge `idx`; shared tail of the clearing
    /// paths of `place_votes`.
    fn clear_row(&mut self, idx: usize, voter: &String)
        requires
            wf(old(self)@),
            idx < old(self)@.gauges.len(),
        ensures
            wf(final(self)@),
            final(self)@.owner == old(self)@.owner,
            final(self)@.gauges == old(self)@.gauges.update(
                idx as int,
                GaugeStateView {
                    votes: remove_row(old(self)@.gauges[idx as int].votes, voter@),
                    ..old(self)@.gauges[idx as int]
                },
            ),
    {
        let ghost s = old(self)@.gauges[idx as int];
        let g = &mut self.gauges[idx];
        ledger_remove(&mut g.votes, voter);
        proof {
            assert(self@.gauges[idx as int].votes == remove_row(s.votes, voter@));
            assert(self@.gauges[idx as int].options =~= s.options);
            assert(self@.gauges[idx as int] == GaugeStateView {
                votes: remove_row(s.votes, voter@),
                ..s
            });
            assert(self@.gauges =~= old(self)@.gauges.update(
                idx as int,
                GaugeStateView { votes: remove_row(s.votes, voter@), ..s },
            ));
            lemma_remove_row_sorted(s.votes, voter@);
            assert forall|i: int|
                0 <= i < remove_row(s.votes, voter@).len() implies votes_wf(
                (#[trigger] remove_row(s.votes, voter@)[i]).votes,
                s.options,
            ) by {
                lemma_remove_elem_of(s.votes, voter@, i);
            }
            assert(state_wf(self@.gauges[idx as int]));
            assert forall|i: int| 0 <= i < self@.gauges.len() implies state_wf(
                #[trigger] self@.gauges[i],
            ) by {
                if i != idx as int {
                    assert(self@.gauges[i] == old(self)@.gauges[i]);
                }
            }
        }
    }

    /// Sugar for a single-option allocation carrying the voter's whole
    /// weight; `None` clears as in `place_votes`.
    pub fn place_vote(&mut self, gauge_id: u64, voter: &String, option: Option<String>) -> (r:
        Result<(), GaugeError>)
        requires
            wf(old(self)@),
        ensures
            wf(final(self)@),
            final(self)@.owner == old(self)@.owner,
            gauge_id as int >= old(self)@.gauges.len() ==> r == Err::<(), GaugeError>(
                GaugeError::GaugeNotFound,
            ) && final(self)@ == old(self)@,
            (gauge_id as int) < old(self)@.gauges.len()
                && old(self)@.gauges[gauge_id as int].gauge.is_stopped ==> r == Err::<(), GaugeError>(
                GaugeError::GaugeStopped,
            ) && final(self)@ == old(self)@,
            (gauge_id as int) < old(self)@.gauges.len()
                && !old(self)@.gauges[gauge_id as int].gauge.is_stopped ==> {
                let s = old(self)@.gauges[gauge_id as int];
                match option {
                    None => r == Ok::<(), GaugeError>(()) && final(self)@.gauges
                        == old(self)@.gauges.update(
                        gauge_id as int,
                        GaugeStateView { votes: remove_row(s.votes, voter@), ..s },
                    ),
                    Some(o) => {
                        if !has_option(s.options, o@) {
                            r == Err::<(), GaugeError>(GaugeError::OptionNotFound) && final(self)@
                                == old(self)@
                        } else {
                            r == Ok::<(), GaugeError>(()) && final(self)@.gauges
                                == old(self)@.gauges.update(
                                gauge_id as int,
                                GaugeStateView {
                                    votes: place_row(
                                        s.votes,
                                        VoteInfoView {
                                            voter: voter@,
                                            votes: seq![
                                                VoteView { option: o@, weight: SCALE },
                                            ],
                                        },
                                    ),
                                    ..s
                                },
                            )
                        }
                    },
                }
            },
    {
        match option {
            None => self.place_votes(gauge_id, voter, None),
            Some(o) => {
                let ghost ospec = o@;
                let mut vs: Vec<Vote> = Vec::new();
                vs.push(Vote { option: o, weight: SCALE });
                proof {
                    assert(votes_view(vs@) =~= seq![VoteView { option: ospec, weight: SCALE }]);
                    let vv = votes_view(vs@);
                    assert(row_sum(vv.drop_last()) == 0) by {
                        assert(vv.drop_last() =~= Seq::<VoteView>::empty());
                    }
                    assert(row_sum(vv) == SCALE);
                    assert(votes_ok(vv));
                }
                let r = self.place_votes(gauge_id, voter, Some(vs));
                proof {
                    if (gauge_id as int) < old(self)@.gauges.len()
                        && !old(self)@.gauges[gauge_id as int].gauge.is_stopped {
                        let s = old(self)@.gauges[gauge_id as int];
                        let vv = seq![VoteView { option: ospec, weight: SCALE }];
                        if has_option(s.options, ospec) {
                            assert(votes_known(vv, s.options));
                        } else {
                            assert(!votes_known(vv, s.options)) by {
                                assert(vv[0].option == ospec);
                            }
                        }
                    }
                }
                r
            },
        }
    }
}

/// Schedule override applied on migration: the timestamp of the last
/// entry naming a gauge, if any entry does.
pub open spec fn epoch_override(list: Seq<(u64, u64)>, id: int) -> Option<u64>
    decreases list.len(),
{
    if list.len() == 0 {
        None
    } else if list.last().0 as int == id {
        Some(list.last().1)
    } else {
        epoch_override(list.drop_last(), id)
    }
}

/// Copies a selected set entry by entry.
fn clone_set(s: &Vec<(String, u128)>) -> (r: Vec<(String, u128)>)
    ensures
        crate::state::stored_set_view(r@) == crate::state::stored_set_view(s@),
{
    let mut r: Vec<(String, u128)> = Vec::new();
    let mut i: usize = 0;
    while i < s.len()
        invariant
            0 <= i <= s.len(),
            r@.len() == i,
            forall|j: int| 0 <= j < i ==> (#[trigger] r@[j]).0@ == s@[j].0@ && r@[j].1 == s@[j].1,
        decreases s.len() - i,
    {
        let name = s[i].0.clone();
        let v = s[i].1;
        r.push((name, v));
        i = i + 1;
    }
    proof {
        assert(crate::state::stored_set_view(r@) =~= crate::state::stored_set_view(s@));
    }
    r
}

impl GaugeController {
    /// Owner-only reconfiguration of an active gauge's tunables.  Absent
    /// arguments leave their field alone; a zero threshold or cap clears
    /// that optional field.  The schedule is never reset here.
    pub fn update_gauge(
        &mut self,
        sender: &String,
        gauge_id: u64,
        epoch_size: Option<u64>,
        min_percent_selected: Option<u64>,
        max_options_selected: Option<u32>,
        max_available_percentage: Option<u64>,
    ) -> (r: Result<(), GaugeError>)
        requires
            wf(old(self)@),
            match epoch_size {
                Some(e) => e >= 1,
                None => true,
            },
            match min_percent_selected {
                Some(m) => m <= SCALE,
                None => true,
            },
            match max_available_percentage {
                Some(c) => c <= SCALE,
                None => true,
            },
        ensures
            wf(final(self)@),
            final(self)@.owner == old(self)@.owner,
            gauge_id as int >= old(self)@.gauges.len() ==> r == Err::<(), GaugeError>(
                GaugeError::GaugeNotFound,
            ) && final(self)@ == old(self)@,
            (gauge_id as int) < old(self)@.gauges.len() && sender@ != old(self)@.owner ==> r
                == Err::<(), GaugeError>(GaugeError::Unauthorized) && final(self)@ == old(self)@,
            (gauge_id as int) < old(self)@.gauges.len() && sender@ == old(self)@.owner && old(
                self,
            )@.gauges[gauge_id as int].gauge.is_stopped ==> r == Err::<(), GaugeError>(
                GaugeError::GaugeStopped,
            ) && final(self)@ == old(self)@,
            (gauge_id as int) < old(self)@.gauges.len() && sender@ == old(self)@.owner && !old(
                self,
            )@.gauges[gauge_id as int].gauge.is_stopped ==> {
                let s = old(self)@.gauges[gauge_id as int];
                r == Ok::<(), GaugeError>(()) && final(self)@.gauges == old(self)@.gauges.update(
                    gauge_id as int,
                    GaugeStateView {
                        gauge: GaugeSnap {
                            epoch_size: match epoch_size {
                                Some(e) => e,
                                None => s.gauge.epoch_size,
                            },
                            min_percent_selected: match min_percent_selected {
                                Some(m) => if m == 0 {
                                    None
                                } else {
                                    Some(m)
                                },
                                None => s.gauge.min_percent_selected,
                            },
                            max_options_selected: match max_options_selected {
                                Some(k) => k,
                                None => s.gauge.max_options_selected,
                            },
                            max_available_percentage: match max_available_percentage {
                                Some(c) => if c == 0 {
                                    None
                                } else {
                                    Some(c)
                                },
                                None => s.gauge.max_available_percentage,
                            },
                            ..s.gauge
                        },
                        ..s
                    },
                )
            },
    {
        if gauge_id >= self.gauges.len() as u64 {
            return Err(GaugeError::GaugeNotFound);
        }
        if !sender.eq(&self.owner) {
            return Err(GaugeError::Unauthorized);
        }
        let idx = gauge_id as usize;
        if self.gauges[idx].gauge.is_stopped {
            return Err(GaugeError::GaugeStopped);
        }
        let ghost s = old(self)@.gauges[gauge_id as int];
        let g = &mut self.gauges[idx];
        match epoch_size {
            Some(e) => {
                g.gauge.epoch_size = e;
            },
            None => {},
        }
        match min_percent_selected {
            Some(m) => {
                g.gauge.min_percent_selected = if m == 0 {
                    None
                } else {
                    Some(m)
                };
            },
            None => {},
        }
        match max_options_selected {
            Some(k) => {
                g.gauge.max_options_selected = k;
            },
            None => {},
        }
        match max_available_percentage {
            Some(c) => {
                g.gauge.max_available_percentage = if c == 0 {
                    None
                } else {
                    Some(c)
                };
            },
            None => {},
        }
        proof {
            assert(self@.gauges[idx as int].options =~= s.options);
            assert(self@.gauges =~= old(self)@.gauges.update(
                gauge_id as int,
                self@.gauges[gauge_id as int],
            ));
            assert forall|i: int| 0 <= i < self@.gauges.len() implies state_wf(
                #[trigger] self@.gauges[i],
            ) by {
                if i != gauge_id as int {
                    assert(self@.gauges[i] == old(self)@.gauges[i]);
                }
            }
        }
        Ok(())
    }

    /// Owner-only, terminal stop: the gauge keeps its state and stays
    /// queryable, but rejects every further mutation.
    pub fn stop_gauge(&mut self, sender: &String, gauge_id: u64) -> (r: Result<(), GaugeError>)
        requires
            wf(old(self)@),
        ensures
            wf(final(self)@),
            final(self)@.owner == old(self)@.owner,
            gauge_id as int >= old(self)@.gauges.len() ==> r == Err::<(), GaugeError>(
                GaugeError::GaugeNotFound,
            ) && final(self)@ == old(self)@,
            (gauge_id as int) < old(self)@.gauges.len() && sender@ != old(self)@.owner ==> r
                == Err::<(), GaugeError>(GaugeError::Unauthorized) && final(self)@ == old(self)@,
            (gauge_id as int) < old(self)@.gauges.len() && sender@ == old(self)@.owner && old(
                self,
            )@.gauges[gauge_id as int].gauge.is_stopped ==> r == Err::<(), GaugeError>(
                GaugeError::AlreadyStopped,
            ) && final(self)@ == old(self)@,
            (gauge_id as int) < old(self)@.gauges.len() && sender@ == old(self)@.owner && !old(
                self,
            )@.gauges[gauge_id as int].gauge.is_stopped ==> {
                let s = old(self)@.gauges[gauge_id as int];
                r == Ok::<(), GaugeError>(()) && final(self)@.gauges == old(self)@.gauges.update(
                    gauge_id as int,
                    GaugeStateView { gauge: GaugeSnap { is_stopped: true, ..s.gauge }, ..s },
                )
            },
    {
        if gauge_id >= self.gauges.len() as u64 {
            return Err(GaugeError::GaugeNotFound);
        }
        if !sender.eq(&self.owner) {
            return Err(GaugeError::Unauthorized);
        }
        let idx = gauge_id as usize;
        if self.gauges[idx].gauge.is_stopped {
            return Err(GaugeError::AlreadyStopped);
        }
        let ghost s = old(self)@.gauges[gauge_id as int];
        let g = &mut self.gauges[idx];
        g.gauge.is_stopped = true;
        proof {
            assert(self@.gauges[idx as int].options =~= s.options);
            assert(self@.gauges =~= old(self)@.gauges.update(
                gauge_id as int,
                GaugeStateView { gauge: GaugeSnap { is_stopped: true, ..s.gauge }, ..s },
            ));
            assert forall|i: int| 0 <= i < self@.gauges.len() implies state_wf(
                #[trigger] self@.gauges[i],
            ) by {
                if i != gauge_id as int {
                    assert(self@.gauges[i] == old(self)@.gauges[i]);
                }
            }
        }
        Ok(())
    }

    /// Migration entry point: an optional schedule override realigns the
    /// `next_epoch` of the gauges it names (last entry wins); every other
    /// gauge keeps its schedule.  An override naming an unknown gauge is
    /// rejected whole.
    pub fn migrate(&mut self, next_epochs: Option<Vec<(u64, u64)>>) -> (r: Result<
        (),
        GaugeError,
    >)
        requires
            wf(old(self)@),
        ensures
            wf(final(self)@),
            final(self)@.owner == old(self)@.owner,
            match next_epochs {
                None => r == Ok::<(), GaugeError>(()) && final(self)@ == old(self)@,
                Some(l) => {
                    if (exists|t: int|
                        0 <= t < l@.len() && (#[trigger] l@[t]).0 as int >= old(
                            self,
                        )@.gauges.len()) {
                        r == Err::<(), GaugeError>(GaugeError::GaugeNotFound) && final(self)@
                            == old(self)@
                    } else {
                        &&& r == Ok::<(), GaugeError>(())
                        &&& final(self)@.gauges.len() == old(self)@.gauges.len()
                        &&& forall|g: int|
                            0 <= g < old(self)@.gauges.len() ==> #[trigger] final(self)@.gauges[g]
                                == (GaugeStateView {
                                gauge: GaugeSnap {
                                    next_epoch: match epoch_override(l@, g) {
                                        Some(t) => t,
                                        None => old(self)@.gauges[g].gauge.next_epoch,
                                    },
                                    ..old(self)@.gauges[g].gauge
                                },
                                ..old(self)@.gauges[g]
                            })
                    }
                },
            },
    {
        let l = match next_epochs {
            None => {
                return Ok(());
            },
            Some(l) => l,
        };
        let mut v: usize = 0;
        while v < l.len()
            invariant
                0 <= v <= l@.len(),
                forall|t: int| 0 <= t < v ==> ((#[trigger] l@[t]).0 as int) < self@.gauges.len(),
                self@ == old(self)@,
                wf(self@),
                next_epochs == Some(l),
            decreases l@.len() - v,
        {
            if l[v].0 >= self.gauges.len() as u64 {
                return Err(GaugeError::GaugeNotFound);
            }
            v = v + 1;
        }
        proof {
            assert(l@.take(0) =~= Seq::<(u64, u64)>::empty());
            assert(self.gauges@.len() == self.gauges.len());
        }
        let mut i: usize = 0;
        while i < l.len()
            invariant
                wf(self@),
                0 <= i <= l@.len(),
                old(self)@.gauges.len() <= usize::MAX,
                forall|t: int| 0 <= t < l@.len() ==> ((#[trigger] l@[t]).0 as int) < old(
                    self,
                )@.gauges.len(),
                self@.owner == old(self)@.owner,
                self@.gauges.len() == old(self)@.gauges.len(),
                forall|g: int|
                    0 <= g < old(self)@.gauges.len() ==> #[trigger] self@.gauges[g]
                        == (GaugeStateView {
                        gauge: GaugeSnap {
                            next_epoch: match epoch_override(l@.take(i as int), g) {
                                Some(t) => t,
                                None => old(self)@.gauges[g].gauge.next_epoch,
                            },
                            ..old(self)@.gauges[g].gauge
                        },
                        ..old(self)@.gauges[g]
                    }),
            decreases l@.len() - i,
        {
            let gid = l[i].0 as usize;
            let ts = l[i].1;
            proof {
                assert((l@[i as int].0 as int) < old(self)@.gauges.len());
                assert(gid as int == l@[i as int].0 as int);
            }
            let ghost pre = self@.gauges;
            let g = &mut self.gauges[gid];
            g.gauge.next_epoch = ts;
            proof {
                let tk1 = l@.take(i as int + 1);
                assert(tk1.drop_last() =~= l@.take(i as int));
                assert(tk1.last() == l@[i as int]);
                assert(self@.gauges =~= pre.update(gid as int, self@.gauges[gid as int]));
                assert forall|gg: int|
                    0 <= gg < old(self)@.gauges.len() implies #[trigger] self@.gauges[gg]
                    == GaugeStateView {
                    gauge: GaugeSnap {
                        next_epoch: match epoch_override(tk1, gg) {
                            Some(t) => t,
                            None => old(self)@.gauges[gg].gauge.next_epoch,
                        },
                        ..old(self)@.gauges[gg].gauge
                    },
                    ..old(self)@.gauges[gg]
                } by {
                    if gg != gid as int {
                        assert(self@.gauges[gg] == pre[gg]);
                        assert(epoch_override(tk1, gg) == epoch_override(l@.take(i as int), gg));
                    } else {
                        assert(epoch_override(tk1, gg) == Some(ts));
                    }
                }
            }
            i = i + 1;
        }
        proof {
            assert(l@.take(l@.len() as int) =~= l@);
        }
        Ok(())
    }
}

impl GaugeController {
    /// Runs one execution pass of a gauge: tallies current voting power
    /// over the stored allocations, selects the winning options, records
    /// the selected set as the last executed one, advances the schedule
    /// by exactly one epoch, and returns the set for the caller to hand
    /// to the gauge's adapter.  The caller's transaction discipline must
    /// discard these state changes if the adapter then fails.
    pub fn execute(&mut self, gauge_id: u64, now: u64, powers: &Vec<(String, u64)>) -> (r: Result<
        Vec<(String, u128)>,
        GaugeError,
    >)
        requires
            wf(old(self)@),
        ensures
            wf(final(self)@),
            final(self)@.owner == old(self)@.owner,
            gauge_id as int >= old(self)@.gauges.len() ==> r == Err::<Vec<(String, u128)>, GaugeError>(
                GaugeError::GaugeNotFound,
            ) && final(self)@ == old(self)@,
            (gauge_id as int) < old(self)@.gauges.len()
                && old(self)@.gauges[gauge_id as int].gauge.is_stopped ==> r == Err::<Vec<(String, u128)>, GaugeError>(
                GaugeError::GaugeStopped,
            ) && final(self)@ == old(self)@,
            (gauge_id as int) < old(self)@.gauges.len()
                && !old(self)@.gauges[gauge_id as int].gauge.is_stopped && now < old(
                self,
            )@.gauges[gauge_id as int].gauge.next_epoch ==> r == Err::<Vec<(String, u128)>, GaugeError>(
                GaugeError::EpochNotReached,
            ) && final(self)@ == old(self)@,
            (gauge_id as int) < old(self)@.gauges.len()
                && !old(self)@.gauges[gauge_id as int].gauge.is_stopped && now >= old(
                self,
            )@.gauges[gauge_id as int].gauge.next_epoch ==> {
                let s = old(self)@.gauges[gauge_id as int];
                let pv = crate::state::powers_view(powers@);
                if s.gauge.next_epoch + s.gauge.epoch_size > u64::MAX || support_total(
                    s.votes,
                    pv,
                ) > MAX_TOTAL_SUPPORT {
                    r == Err::<Vec<(String, u128)>, GaugeError>(GaugeError::Overflow)
                        && final(self)@ == old(self)@
                } else {
                    match r {
                        Ok(set) => {
                            &&& set_view(set@) == selected_set_of(s, pv)
                            &&& final(self)@.gauges == old(self)@.gauges.update(
                                gauge_id as int,
                                GaugeStateView {
                                    gauge: GaugeSnap {
                                        next_epoch: (s.gauge.next_epoch
                                            + s.gauge.epoch_size) as u64,
                                        ..s.gauge
                                    },
                                    last_executed_set: Some(stored_set_view(set@)),
                                    ..s
                                },
                            )
                        },
                        Err(_) => false,
                    }
                }
            },
    {
        if gauge_id >= self.gauges.len() as u64 {
            return Err(GaugeError::GaugeNotFound);
        }
        let idx = gauge_id as usize;
        if self.gauges[idx].gauge.is_stopped {
            return Err(GaugeError::GaugeStopped);
        }
        let next = self.gauges[idx].gauge.next_epoch;
        if now < next {
            return Err(GaugeError::EpochNotReached);
        }
        let eps = self.gauges[idx].gauge.epoch_size;
        if next > u64::MAX - eps {
            return Err(GaugeError::Overflow);
        }
        let ghost s = old(self)@.gauges[gauge_id as int];
        let ghost pv = crate::state::powers_view(powers@);
        proof {
            assert(options_view(self.gauges@[idx as int].options@) == s.options);
            assert(rows_view(self.gauges@[idx as int].votes@) == s.votes);
        }
        let tr = tally(&self.gauges[idx].options, &self.gauges[idx].votes, powers);
        let (totals, grand) = match tr {
            Err(e) => {
                return Err(e);
            },
            Ok(p) => p,
        };
        let set = select(
            &self.gauges[idx].options,
            &totals,
            grand,
            self.gauges[idx].gauge.min_percent_selected,
            self.gauges[idx].gauge.max_options_selected,
            self.gauges[idx].gauge.max_available_percentage,
        );
        proof {
            let ov = options_view(self.gauges@[idx as int].options@);
            let tot_nats = totals@.map_values(|t: u128| t as nat);
            assert(tot_nats =~= crate::select::totals_of(s.options, s.votes, pv));
            assert(set_view(set@) =~= selected_set_of(s, pv));
        }
        let stored = clone_set(&set);
        let new_next = next + eps;
        let g = &mut self.gauges[idx];
        g.gauge.next_epoch = new_next;
        g.last_executed_set = Some(stored);
        proof {
            assert(self@.gauges[idx as int].options =~= s.options);
            assert(self@.gauges[idx as int] == (GaugeStateView {
                gauge: GaugeSnap { next_epoch: new_next, ..s.gauge },
                last_executed_set: Some(stored_set_view(set@)),
                ..s
            }));
            assert(self@.gauges =~= old(self)@.gauges.update(
                gauge_id as int,
                GaugeStateView {
                    gauge: GaugeSnap { next_epoch: new_next, ..s.gauge },
                    last_executed_set: Some(stored_set_view(set@)),
                    ..s
                },
            ));
            assert forall|i: int| 0 <= i < self@.gauges.len() implies state_wf(
                #[trigger] self@.gauges[i],
            ) by {
                if i != gauge_id as int {
                    assert(self@.gauges[i] == old(self)@.gauges[i]);
                }
            }
        }
        Ok(set)
    }
}

/// Appending a never-seen option keeps a gauge state well formed: the
/// registry stays duplicate-free and every stored allocation still
/// references registered options.
pub proof fn lemma_state_wf_option_extend(s: GaugeStateView, o: Seq<char>)
    requires
        state_wf(s),
        !has_option(s.options, o),
    ensures
        state_wf(GaugeStateView { options: s.options.push(o), ..s }),
{
    let ext = s.options.push(o);
    assert forall|i: int, j: int| 0 <= i < j < ext.len() implies ext[i] != ext[j] by {
        if j < s.options.len() {
            assert(ext[i] == s.options[i]);
            assert(ext[j] == s.options[j]);
        } else {
            assert(ext[i] == s.options[i]);
            assert(!(exists|t: int| 0 <= t < s.options.len() && s.options[t] == o));
        }
    }
    assert forall|i: int|
        0 <= i < s.votes.len() implies crate::state::votes_wf(
        (#[trigger] s.votes[i]).votes,
        ext,
    ) by {
        let row = s.votes[i].votes;
        assert(crate::state::votes_wf(row, s.options));
        assert forall|t: int| 0 <= t < row.len() implies has_option(ext, #[trigger] row[t].option) by {
            let w = choose|u: int| 0 <= u < s.options.len() && s.options[u] == row[t].option;
            assert(ext[w] == row[t].option);
        }
    }
}

} // verus!
