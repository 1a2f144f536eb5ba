use vstd::prelude::*;
use vstd::arithmetic::mul::*;

use crate::state::{
    cap_atomics, min_atomics, GaugeStateView, VoteInfoView, MAX_TOTAL_SUPPORT, SCALE,
};
use crate::tally::{option_total, options_view, support_total};

verus! {

/// Whether an option with this support clears the threshold: it must
/// have some support at all, and its share of the grand total must reach
/// the configured minimum fraction.
pub open spec fn eligible(total: nat, grand: nat, min_at: nat) -> bool {
    total > 0 && total * SCALE >= min_at * grand
}

/// Step two of the selection pipeline: the (index, support) pairs of the
/// options that clear the threshold, in registration order.
pub open spec fn filtered(totals: Seq<nat>, grand: nat, min_at: nat) -> Seq<(int, nat)>
    decreases totals.len(),
{
    if totals.len() == 0 {
        Seq::empty()
    } else {
        let pre = filtered(totals.drop_last(), grand, min_at);
        if eligible(totals.last(), grand, min_at) {
            pre.push((totals.len() - 1, totals.last()))
        } else {
            pre
        }
    }
}

/// Position of the winner among `s`: the earliest pair carrying the
/// largest support, so that ties break toward earlier registration.
pub open spec fn argmax_idx(s: Seq<(int, nat)>) -> int
    decreases s.len(),
{
    if s.len() <= 1 {
        0
    } else {
        let rest = argmax_idx(s.drop_first()) + 1;
        if 0 <= rest < s.len() && s[0].1 < s[rest].1 {
            rest
        } else {
            0
        }
    }
}

/// `argmax_idx` lies in range, names a maximal pair, and is the earliest
/// position carrying that maximum.
pub proof fn lemma_argmax_props(s: Seq<(int, nat)>)
    requires
        s.len() > 0,
    ensures
        0 <= argmax_idx(s) < s.len(),
        forall|t: int| 0 <= t < s.len() ==> (#[trigger] s[t]).1 <= s[argmax_idx(s)].1,
        forall|t: int| 0 <= t < argmax_idx(s) ==> (#[trigger] s[t]).1 < s[argmax_idx(s)].1,
    decreases s.len(),
{
    if s.len() > 1 {
        lemma_argmax_props(s.drop_first());
        let sub = s.drop_first();
        let rest = argmax_idx(sub) + 1;
        assert forall|t: int| 1 <= t < s.len() implies s[t] == sub[t - 1] by {}
        assert(s[rest] == sub[rest - 1]);
    }
}

/// Step three: order the eligible pairs by descending support, winner
/// first, ties resolved toward the earlier pair.
pub open spec fn sort_desc(s: Seq<(int, nat)>) -> Seq<(int, nat)>
    decreases s.len(),
{
    if s.len() == 0 {
        Seq::empty()
    } else {
        let am = argmax_idx(s);
        let amc = if 0 <= am < s.len() {
            am
        } else {
            0
        };
        seq![s[amc]] + sort_desc(s.remove(amc))
    }
}

pub proof fn lemma_sort_desc_len(s: Seq<(int, nat)>)
    ensures
        sort_desc(s).len() == s.len(),
    decreases s.len(),
{
    if s.len() > 0 {
        lemma_argmax_props(s);
        lemma_sort_desc_len(s.remove(argmax_idx(s)));
    }
}

/// Sorting keeps every pairwise property of the elements: whatever held
/// of each pair of `s` holds of each pair of its ordering.
pub proof fn lemma_sort_desc_elems(s: Seq<(int, nat)>, pred: spec_fn((int, nat)) -> bool)
    requires
        forall|t: int| 0 <= t < s.len() ==> pred(#[trigger] s[t]),
    ensures
        forall|t: int| 0 <= t < sort_desc(s).len() ==> pred(#[trigger] sort_desc(s)[t]),
    decreases s.len(),
{
    if s.len() > 0 {
        lemma_argmax_props(s);
        let am = argmax_idx(s);
        let rest = s.remove(am);
        assert forall|t: int| 0 <= t < rest.len() implies pred(#[trigger] rest[t]) by {
            if t < am {
                assert(rest[t] == s[t]);
            } else {
                assert(rest[t] == s[t + 1]);
            }
        }
        lemma_sort_desc_elems(rest, pred);
        assert forall|t: int| 0 <= t < sort_desc(s).len() implies pred(
            #[trigger] sort_desc(s)[t],
        ) by {
            if t == 0 {
                assert(sort_desc(s)[0] == s[am]);
            } else {
                assert(sort_desc(s)[t] == sort_desc(rest)[t - 1]);
            }
        }
    }
}

/// Every pair the filter admits carries a valid index, that option's
/// exact support, and clears the threshold.
pub proof fn lemma_filtered_elems(totals: Seq<nat>, grand: nat, min_at: nat)
    ensures
        forall|t: int|
            0 <= t < filtered(totals, grand, min_at).len() ==> {
                let p = #[trigger] filtered(totals, grand, min_at)[t];
                &&& 0 <= p.0 < totals.len()
                &&& p.1 == totals[p.0]
                &&& eligible(p.1, grand, min_at)
            },
    decreases totals.len(),
{
    if totals.len() > 0 {
        lemma_filtered_elems(totals.drop_last(), grand, min_at);
        let pre = filtered(totals.drop_last(), grand, min_at);
        let f = filtered(totals, grand, min_at);
        assert forall|t: int|
            0 <= t < f.len() implies {
                let p = #[trigger] f[t];
                &&& 0 <= p.0 < totals.len()
                &&& p.1 == totals[p.0]
                &&& eligible(p.1, grand, min_at)
            } by {
            if t < pre.len() {
                assert(f[t] == pre[t]);
                assert(totals.drop_last()[pre[t].0] == totals[pre[t].0]);
            } else {
                assert(f[t] == (totals.len() - 1, totals.last()));
            }
        }
    }
}

/// Step five: cap a winner's support at the configured fraction of the
/// grand total; the excess is dropped, never redistributed.
pub open spec fn capped(v: nat, grand: nat, cap_at: nat) -> nat {
    let ceiling = (cap_at * grand) / (SCALE as nat);
    if v > ceiling {
        ceiling
    } else {
        v
    }
}

/// The whole selection pipeline over raw per-option supports: filter by
/// threshold, order by descending support with ties toward earlier
/// registration, truncate to the result cap, then cap each winner's
/// support.  Pairs carry the option's registration index.
pub open spec fn selected_pairs(
    totals: Seq<nat>,
    grand: nat,
    min_at: nat,
    k: nat,
    cap_at: nat,
) -> Seq<(int, nat)> {
    let ordered = sort_desc(filtered(totals, grand, min_at));
    let kk = if k < ordered.len() {
        k as int
    } else {
        ordered.len() as int
    };
    ordered.take(kk).map_values(|p: (int, nat)| (p.0, capped(p.1, grand, cap_at)))
}

/// Per-option supports of a gauge, in registration order.
pub open spec fn totals_of(
    options: Seq<Seq<char>>,
    rows: Seq<VoteInfoView>,
    powers: Seq<(Seq<char>, u64)>,
) -> Seq<nat> {
    Seq::new(options.len(), |i: int| option_total(rows, powers, options[i]))
}

/// The selected set of a gauge under a voting power snapshot: the result
/// of the selection pipeline, with indices resolved to option texts.
/// This is a pure function of the gauge's stored state, its
/// configuration and the snapshot, which is the engine's determinism
/// guarantee.
pub open spec fn selected_set_of(s: GaugeStateView, powers: Seq<(Seq<char>, u64)>) -> Seq<
    (Seq<char>, nat),
> {
    selected_pairs(
        totals_of(s.options, s.votes, powers),
        support_total(s.votes, powers),
        min_atomics(s.gauge.min_percent_selected),
        s.gauge.max_options_selected as nat,
        cap_atomics(s.gauge.max_available_percentage),
    ).map_values(|p: (int, nat)| (s.options[p.0], p.1))
}

/// Deep view of candidate pairs held in executable form.
pub open spec fn pairs_view(s: Seq<(usize, u128)>) -> Seq<(int, nat)> {
    s.map_values(|p: (usize, u128)| (p.0 as int, p.1 as nat))
}

/// Deep view of a selected set held in executable form.
pub open spec fn set_view(s: Seq<(String, u128)>) -> Seq<(Seq<char>, nat)> {
    s.map_values(|p: (String, u128)| (p.0@, p.1 as nat))
}

/// Runs the selection algorithm on tallied supports.  `totals` holds one
/// support per registered option; `grand` their overall total.
pub fn select(
    options: &Vec<String>,
    totals: &Vec<u128>,
    grand: u128,
    min_percent: Option<u64>,
    max_selected: u32,
    max_percentage: Option<u64>,
) -> (r: Vec<(String, u128)>)
    requires
        totals.len() == options.len(),
        forall|i: int| 0 <= i < totals.len() ==> totals[i] <= grand,
        grand <= MAX_TOTAL_SUPPORT,
        match min_percent {
            Some(m) => m <= SCALE,
            None => true,
        },
        match max_percentage {
            Some(c) => c <= SCALE,
            None => true,
        },
    ensures
        set_view(r@) == selected_pairs(
            totals@.map_values(|t: u128| t as nat),
            grand as nat,
            min_atomics(min_percent),
            max_selected as nat,
            cap_atomics(max_percentage),
        ).map_values(|p: (int, nat)| (options_view(options@)[p.0], p.1)),
{
    let ghost tot_nats = totals@.map_values(|t: u128| t as nat);
    let ghost ov = options_view(options@);
    let ghost min_at = min_atomics(min_percent);
    let ghost cap_at = cap_atomics(max_percentage);

    // Step one and two: collect the pairs that clear the threshold.
    let mut cands: Vec<(usize, u128)> = Vec::new();
    proof {
        assert(tot_nats.take(0) =~= Seq::<nat>::empty());
    }
    let mut i: usize = 0;
    while i < totals.len()
        invariant
            tot_nats == totals@.map_values(|t: u128| t as nat),
            min_at == min_atomics(min_percent),
            0 <= i <= totals.len(),
            totals.len() == options.len(),
            forall|j: int| 0 <= j < totals.len() ==> totals[j] <= grand,
            grand <= MAX_TOTAL_SUPPORT,
            match min_percent {
                Some(m) => m <= SCALE,
                None => true,
            },
            pairs_view(cands@) == filtered(tot_nats.take(i as int), grand as nat, min_at),
        decreases totals.len() - i,
    {
        let t = totals[i];
        proof {
            lemma_mul_inequality(t as int, grand as int, SCALE as int);
            lemma_mul_is_commutative(t as int, SCALE as int);
            assert(MAX_TOTAL_SUPPORT * (SCALE as u128) <= u128::MAX);
            match min_percent {
                Some(m) => {
                    lemma_mul_inequality(m as int, SCALE as int, grand as int);
                    lemma_mul_is_commutative(m as int, grand as int);
                },
                None => {},
            }
        }
        let ok: bool = t > 0 && (match min_percent {
            Some(m) => t * (SCALE as u128) >= (m as u128) * grand,
            None => true,
        });
        proof {
            assert(ok == eligible(t as nat, grand as nat, min_at));
        }
        if ok {
            cands.push((i, t));
        }
        proof {
            let tk1 = tot_nats.take(i as int + 1);
            assert(tk1.drop_last() =~= tot_nats.take(i as int));
            assert(tk1.last() == tot_nats[i as int]);
            if ok {
                assert(pairs_view(cands@) =~= filtered(tot_nats.take(i as int), grand as nat, min_at).push((i as int, t as nat)));
            }
        }
        i = i + 1;
    }
    proof {
        assert(tot_nats.take(totals@.len() as int) =~= tot_nats);
    }
    let ghost orig = pairs_view(cands@);

    // Steps three and four: pick winners in order, up to the result cap.
    let k_eff: usize = if (max_selected as usize) < cands.len() {
        max_selected as usize
    } else {
        cands.len()
    };
    proof {
        lemma_sort_desc_len(orig);
    }
    let mut rem = cands;
    let mut out: Vec<(usize, u128)> = Vec::new();
    proof {
        assert(pairs_view(out@) + sort_desc(pairs_view(rem@)) =~= sort_desc(orig));
    }
    while out.len() < k_eff
        invariant
            out.len() <= k_eff,
            k_eff <= orig.len(),
            out.len() + rem.len() == orig.len(),
            sort_desc(orig).len() == orig.len(),
            pairs_view(out@) + sort_desc(pairs_view(rem@)) == sort_desc(orig),
        decreases k_eff - out.len(),
    {
        let ghost rv = pairs_view(rem@);
        let mut best: usize = 0;
        let mut j: usize = 1;
        while j < rem.len()
            invariant
                rem.len() > 0,
                0 <= best < j,
                1 <= j <= rem.len(),
                forall|t: int| 0 <= t < j ==> rem[t].1 <= rem[best as int].1,
                forall|t: int| 0 <= t < best ==> rem[t].1 < rem[best as int].1,
            decreases rem.len() - j,
        {
            if rem[j].1 > rem[best].1 {
                best = j;
            }
            j = j + 1;
        }
        proof {
            lemma_argmax_props(rv);
            let am = argmax_idx(rv);
            assert(rv.len() == rem.len());
            assert forall|t: int| 0 <= t < rv.len() implies rv[t].1 == rem[t].1 as nat by {}
            if am < best {
                assert(rem[am].1 < rem[best as int].1);
                assert(rv[am].1 >= rv[best as int].1);
                assert(false);
            }
            if best < am {
                assert(rv[best as int].1 < rv[am].1);
                assert(rem[am].1 <= rem[best as int].1);
                assert(false);
            }
            assert(best as int == am);
        }
        let picked = rem[best];
        out.push(picked);
        rem.remove(best);
        proof {
            let am = argmax_idx(rv);
            assert(sort_desc(rv) == seq![rv[am]] + sort_desc(rv.remove(am)));
            assert(pairs_view(rem@) =~= rv.remove(am));
            assert(pairs_view(out@) =~= pairs_view(out@.drop_last()).push(rv[am]));
            assert(pairs_view(out@) + sort_desc(pairs_view(rem@)) =~= (pairs_view(
                out@.drop_last(),
            ) + sort_desc(rv)));
        }
    }
    proof {
        lemma_sort_desc_len(pairs_view(rem@));
        assert(pairs_view(out@) =~= sort_desc(orig).take(k_eff as int));
    }

    // Steps five and six: cap each winner and resolve its option text.
    let ghost fspec = selected_pairs(tot_nats, grand as nat, min_at, max_selected as nat, cap_at);
    proof {
        assert(sort_desc(orig).take(k_eff as int).map_values(
            |p: (int, nat)| (p.0, capped(p.1, grand as nat, cap_at)),
        ) == fspec);
        lemma_filtered_elems(tot_nats, grand as nat, min_at);
        lemma_sort_desc_elems(
            orig,
            |p: (int, nat)| 0 <= p.0 < tot_nats.len() && p.1 == tot_nats[p.0],
        );
    }
    let cap_units: u64 = match max_percentage {
        Some(c) => c,
        None => SCALE,
    };
    proof {
        lemma_mul_inequality(cap_units as int, SCALE as int, grand as int);
        lemma_mul_is_commutative(cap_units as int, grand as int);
        assert(MAX_TOTAL_SUPPORT * (SCALE as u128) <= u128::MAX);
    }
    let ceiling: u128 = ((cap_units as u128) * grand) / (SCALE as u128);
    let mut resv: Vec<(String, u128)> = Vec::new();
    let mut q: usize = 0;
    while q < out.len()
        invariant
            ov == options_view(options@),
            totals.len() == options.len(),
            tot_nats.len() == totals.len(),
            pairs_view(out@) == sort_desc(orig).take(k_eff as int),
            k_eff <= sort_desc(orig).len(),
            forall|t: int|
                0 <= t < pairs_view(out@).len() ==> {
                    let p = #[trigger] pairs_view(out@)[t];
                    0 <= p.0 < tot_nats.len() && p.1 == tot_nats[p.0]
                },
            ceiling as nat == (cap_at * grand as nat) / (SCALE as nat),
            fspec == pairs_view(out@).map_values(
                |p: (int, nat)| (p.0, capped(p.1, grand as nat, cap_at)),
            ),
            0 <= q <= out.len(),
            set_view(resv@) == fspec.take(q as int).map_values(
                |p: (int, nat)| (ov[p.0], p.1),
            ),
        decreases out.len() - q,
    {
        let (idx, t) = out[q];
        assert(pairs_view(out@)[q as int] == (idx as int, t as nat));
        let v: u128 = if t > ceiling {
            ceiling
        } else {
            t
        };
        assert(v as nat == capped(t as nat, grand as nat, cap_at));
        let name = options[idx].clone();
        resv.push((name, v));
        proof {
            assert(fspec[q as int] == (idx as int, capped(t as nat, grand as nat, cap_at)));
            assert(name == options@[idx as int]);
            assert(name@ == ov[idx as int]);
            assert(fspec.len() == out.len());
            let prev = resv@.drop_last();
            let lhs = set_view(resv@);
            let rhs = fspec.take(q as int + 1).map_values(|p: (int, nat)| (ov[p.0], p.1));
            assert(set_view(prev) == fspec.take(q as int).map_values(
                |p: (int, nat)| (ov[p.0], p.1),
            ));
            assert(lhs.len() == rhs.len());
            assert forall|ii: int| 0 <= ii < lhs.len() implies lhs[ii] == rhs[ii] by {
                if ii < q {
                    assert(resv@[ii] == prev[ii]);
                    assert(lhs[ii] == set_view(prev)[ii]);
                    assert(fspec.take(q as int)[ii] == fspec[ii]);
                    assert(fspec.take(q as int + 1)[ii] == fspec[ii]);
                } else {
                    assert(resv@[ii] == (name, v));
                    assert(fspec.take(q as int + 1)[ii] == fspec[q as int]);
                }
            }
            assert(lhs =~= rhs);
        }
        q = q + 1;
    }
    proof {
        assert(fspec.take(fspec.len() as int) =~= fspec);
        assert(set_view(resv@) =~= fspec.map_values(|p: (int, nat)| (ov[p.0], p.1)));
    }
    resv
}

} // verus!
