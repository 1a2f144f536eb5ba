use vstd::prelude::*;
use vstd::arithmetic::mul::*;

use crate::error::GaugeError;
use crate::state::{
    has_option, options_wf, powers_view, row_sum, rows_wf, votes_wf, Vote, VoteInfo, VoteInfoView,
    VoteView, MAX_TOTAL_SUPPORT, SCALE,
};

verus! {

/// Deep view of an option registry.
pub open spec fn options_view(options: Seq<String>) -> Seq<Seq<char>> {
    options.map_values(|o: String| o@)
}

/// Deep view of a vote ledger.
pub open spec fn rows_view(rows: Seq<VoteInfo>) -> Seq<VoteInfoView> {
    rows.map_values(|r: VoteInfo| r@)
}

/// Weight an allocation assigns to `opt`, in atomics: the sum of the
/// weights of the entries naming `opt`.
pub open spec fn row_weight(votes: Seq<VoteView>, opt: Seq<char>) -> nat
    decreases votes.len(),
{
    if votes.len() == 0 {
        0
    } else {
        row_weight(votes.drop_last(), opt) + if votes.last().option == opt {
            votes.last().weight as nat
        } else {
            0
        }
    }
}

/// Current power of `voter` in a snapshot: the weight of the first entry
/// naming the voter, or zero when the snapshot does not know the voter.
pub open spec fn power_of(powers: Seq<(Seq<char>, u64)>, voter: Seq<char>) -> nat
    decreases powers.len(),
{
    if powers.len() == 0 {
        0
    } else if powers[0].0 == voter {
        powers[0].1 as nat
    } else {
        power_of(powers.drop_first(), voter)
    }
}

/// Weighted support for `opt` across the whole ledger: each voter
/// contributes their current power times the weight their allocation
/// assigns to `opt`.
pub open spec fn option_total(
    rows: Seq<VoteInfoView>,
    powers: Seq<(Seq<char>, u64)>,
    opt: Seq<char>,
) -> nat
    decreases rows.len(),
{
    if rows.len() == 0 {
        0
    } else {
        option_total(rows.drop_last(), powers, opt) + power_of(powers, rows.last().voter)
            * row_weight(rows.last().votes, opt)
    }
}

/// Grand total of weighted support across the whole ledger: each voter
/// contributes their current power times the sum of their weights.
pub open spec fn support_total(rows: Seq<VoteInfoView>, powers: Seq<(Seq<char>, u64)>) -> nat
    decreases rows.len(),
{
    if rows.len() == 0 {
        0
    } else {
        support_total(rows.drop_last(), powers) + power_of(powers, rows.last().voter)
            * row_sum(rows.last().votes)
    }
}

/// Each single weight in an allocation is bounded by the row's sum.
pub proof fn lemma_row_sum_elem(votes: Seq<VoteView>, e: int)
    requires
        0 <= e < votes.len(),
    ensures
        votes[e].weight as nat <= row_sum(votes),
    decreases votes.len(),
{
    if e < votes.len() - 1 {
        lemma_row_sum_elem(votes.drop_last(), e);
    }
}

/// The weight an allocation assigns to one option is bounded by the sum
/// of all its weights.
pub proof fn lemma_row_weight_le_row_sum(votes: Seq<VoteView>, opt: Seq<char>)
    ensures
        row_weight(votes, opt) <= row_sum(votes),
    decreases votes.len(),
{
    if votes.len() > 0 {
        lemma_row_weight_le_row_sum(votes.drop_last(), opt);
    }
}

/// No single option's support exceeds the grand total.
pub proof fn lemma_option_total_le_support(
    rows: Seq<VoteInfoView>,
    powers: Seq<(Seq<char>, u64)>,
    opt: Seq<char>,
)
    ensures
        option_total(rows, powers, opt) <= support_total(rows, powers),
    decreases rows.len(),
{
    if rows.len() > 0 {
        lemma_option_total_le_support(rows.drop_last(), powers, opt);
        lemma_row_weight_le_row_sum(rows.last().votes, opt);
        lemma_mul_inequality(
            row_weight(rows.last().votes, opt) as int,
            row_sum(rows.last().votes) as int,
            power_of(powers, rows.last().voter) as int,
        );
    }
}

/// A prefix of the ledger never carries more support than the whole.
pub proof fn lemma_support_prefix_le(
    rows: Seq<VoteInfoView>,
    powers: Seq<(Seq<char>, u64)>,
    j: int,
)
    requires
        0 <= j <= rows.len(),
    ensures
        support_total(rows.take(j), powers) <= support_total(rows, powers),
    decreases rows.len(),
{
    if j == rows.len() {
        assert(rows.take(j) =~= rows);
    } else {
        assert(rows.take(j) =~= rows.drop_last().take(j));
        lemma_support_prefix_le(rows.drop_last(), powers, j);
    }
}

/// A prefix of an allocation never sums to more than the whole.
pub proof fn lemma_row_sum_prefix_le(votes: Seq<VoteView>, e: int)
    requires
        0 <= e <= votes.len(),
    ensures
        row_sum(votes.take(e)) <= row_sum(votes),
    decreases votes.len(),
{
    if e == votes.len() {
        assert(votes.take(e) =~= votes);
    } else {
        assert(votes.take(e) =~= votes.drop_last().take(e));
        lemma_row_sum_prefix_le(votes.drop_last(), e);
    }
}

/// Index of the registered option whose text equals `opt`, if any.
pub fn find_option(options: &Vec<String>, opt: &String) -> (r: Option<usize>)
    ensures
        match r {
            Some(i) => 0 <= i < options.len() && options_view(options@)[i as int] == opt@,
            None => !has_option(options_view(options@), opt@),
        },
{
    let mut i: usize = 0;
    while i < options.len()
        invariant
            0 <= i <= options.len(),
            forall|j: int| 0 <= j < i ==> options_view(options@)[j] != opt@,
        decreases options.len() - i,
    {
        if options[i].eq(opt) {
            return Some(i);
        }
        i = i + 1;
    }
    None
}

/// Power of `voter` in the snapshot, by first match.
pub fn find_power(powers: &Vec<(String, u64)>, voter: &String) -> (r: u64)
    ensures
        r as nat == power_of(powers_view(powers@), voter@),
{
    let ghost pv = powers_view(powers@);
    proof {
        assert(pv.skip(0) =~= pv);
    }
    let mut i: usize = 0;
    while i < powers.len()
        invariant
            0 <= i <= powers.len(),
            pv == powers_view(powers@),
            pv.len() == powers.len(),
            power_of(pv, voter@) == power_of(pv.skip(i as int), voter@),
        decreases powers.len() - i,
    {
        if powers[i].0.eq(voter) {
            assert(pv.skip(i as int)[0] == pv[i as int]);
            return powers[i].1;
        }
        assert(pv.skip(i as int).drop_first() =~= pv.skip(i as int + 1));
        assert(pv.skip(i as int)[0] == pv[i as int]);
        i = i + 1;
    }
    assert(pv.skip(i as int) =~= Seq::empty());
    0
}

/// Runs the tally engine: folds every voter's current power into
/// per-option totals and the grand total, in one pass over the ledger.
/// Fails only when the grand total leaves the representable range.
pub fn tally(options: &Vec<String>, rows: &Vec<VoteInfo>, powers: &Vec<(String, u64)>) -> (r:
    Result<(Vec<u128>, u128), GaugeError>)
    requires
        options_wf(options_view(options@)),
        rows_wf(rows_view(rows@), options_view(options@)),
    ensures
        match r {
            Ok(p) => {
                &&& support_total(rows_view(rows@), powers_view(powers@)) <= MAX_TOTAL_SUPPORT
                &&& p.1 as nat == support_total(rows_view(rows@), powers_view(powers@))
                &&& p.0.len() == options.len()
                &&& forall|i: int|
                    0 <= i < options.len() ==> p.0[i] as nat == option_total(
                        rows_view(rows@),
                        powers_view(powers@),
                        options_view(options@)[i],
                    )
                &&& forall|i: int| 0 <= i < options.len() ==> p.0[i] <= p.1
            },
            Err(e) => {
                &&& e == GaugeError::Overflow
                &&& support_total(rows_view(rows@), powers_view(powers@)) > MAX_TOTAL_SUPPORT
            },
        },
{
    let ghost ov = options_view(options@);
    let ghost rv = rows_view(rows@);
    let ghost pv = powers_view(powers@);
    let mut totals: Vec<u128> = Vec::new();
    let mut k: usize = 0;
    while k < options.len()
        invariant
            totals.len() == k,
            0 <= k <= options.len(),
            forall|i: int| 0 <= i < k ==> totals[i] == 0u128,
        decreases options.len() - k,
    {
        totals.push(0u128);
        k = k + 1;
    }
    let mut grand: u128 = 0;
    let mut r: usize = 0;
    while r < rows.len()
        invariant
            ov == options_view(options@),
            rv == rows_view(rows@),
            pv == powers_view(powers@),
            options_wf(ov),
            rows_wf(rv, ov),
            rv.len() == rows.len(),
            0 <= r <= rows.len(),
            totals.len() == options.len(),
            grand as nat == support_total(rv.take(r as int), pv),
            grand <= MAX_TOTAL_SUPPORT,
            forall|i: int|
                0 <= i < options.len() ==> totals[i] as nat == option_total(
                    rv.take(r as int),
                    pv,
                    ov[i],
                ),
            forall|i: int| 0 <= i < options.len() ==> totals[i] <= grand,
        decreases rows.len() - r,
    {
        let p = find_power(powers, &rows[r].voter);
        let ghost row = rv[r as int];
        assert(row.votes == rows[r as int].votes@.map_values(|v: Vote| v@));
        assert(votes_wf(row.votes, ov));
        let ghost base_grand = grand as nat;
        let ghost base_totals = totals@;
        proof {
            assert(row.votes.take(0) =~= Seq::<VoteView>::empty());
            assert(row_sum(row.votes.take(0)) == 0);
            assert(p as nat * row_sum(row.votes.take(0)) == 0) by (nonlinear_arith)
                requires
                    row_sum(row.votes.take(0)) == 0,
            {}
            assert forall|i: int| 0 <= i < options.len() implies p as nat * row_weight(
                row.votes.take(0),
                ov[i],
            ) == 0 by {
                assert(row_weight(row.votes.take(0), ov[i]) == 0);
                assert(p as nat * row_weight(row.votes.take(0), ov[i]) == 0) by (nonlinear_arith)
                    requires
                        row_weight(row.votes.take(0), ov[i]) == 0,
                {}
            }
        }
        let mut e: usize = 0;
        let n = rows[r].votes.len();
        while e < n
            invariant
                ov == options_view(options@),
                rv == rows_view(rows@),
                pv == powers_view(powers@),
                options_wf(ov),
                rows_wf(rv, ov),
                rv.len() == rows.len(),
                0 <= r < rows.len(),
                row == rv[r as int],
                row.votes == rows[r as int].votes@.map_values(|v: Vote| v@),
                votes_wf(row.votes, ov),
                n == rows[r as int].votes.len(),
                row.votes.len() == n,
                0 <= e <= n,
                p as nat == power_of(pv, row.voter),
                totals.len() == options.len(),
                base_grand == support_total(rv.take(r as int), pv),
                grand as nat == base_grand + p as nat * row_sum(row.votes.take(e as int)),
                base_totals.len() == options.len(),
                forall|i: int|
                    0 <= i < options.len() ==> base_totals[i] as nat == option_total(
                        rv.take(r as int),
                        pv,
                        ov[i],
                    ),
                forall|i: int|
                    0 <= i < options.len() ==> totals[i] as nat == base_totals[i] as nat
                        + p as nat * row_weight(row.votes.take(e as int), ov[i]),
                forall|i: int| 0 <= i < options.len() ==> totals[i] <= grand,
                grand <= MAX_TOTAL_SUPPORT,
            decreases n - e,
        {
            let w = rows[r].votes[e].weight;
            assert(row.votes[e as int].weight == w);
            proof {
                lemma_row_sum_elem(row.votes, e as int);
            }
            assert(w <= SCALE);
            proof {
                lemma_mul_upper_bound(p as int, u64::MAX as int, w as int, SCALE as int);
            }
            let c: u128 = (p as u128) * (w as u128);
            let opt_idx = match find_option(options, &rows[r].votes[e].option) {
                Some(i) => i,
                None => {
                    proof {
                        assert(row.votes[e as int].option == rows[r as int].votes@[e as int].option@);
                        assert(has_option(ov, row.votes[e as int].option));
                        assert(false);
                    }
                    return Err(GaugeError::Overflow);
                },
            };
            let ghost opt = ov[opt_idx as int];
            assert(row.votes[e as int].option == opt);
            let cur = totals[opt_idx];
            totals.set(opt_idx, cur + c);
            grand = grand + c;
            proof {
                let tk1 = row.votes.take(e as int + 1);
                assert(tk1.drop_last() =~= row.votes.take(e as int));
                assert(tk1.last() == row.votes[e as int]);
                assert(row_sum(tk1) == row_sum(row.votes.take(e as int)) + w as nat);
                lemma_mul_is_distributive_add(
                    p as int,
                    row_sum(row.votes.take(e as int)) as int,
                    w as int,
                );
                assert(grand as nat == base_grand + p as nat * row_sum(tk1));
                assert forall|i: int| 0 <= i < options.len() implies totals@[i] as nat
                    == base_totals[i] as nat + p as nat * row_weight(tk1, ov[i]) by {
                    lemma_mul_is_distributive_add(
                        p as int,
                        row_weight(row.votes.take(e as int), ov[i]) as int,
                        if opt == ov[i] { w as int } else { 0 },
                    );
                    if i != opt_idx {
                        assert(ov[i] != opt);
                    }
                }
            }
            if grand > MAX_TOTAL_SUPPORT {
                proof {
                    lemma_row_sum_prefix_le(row.votes, e as int + 1);
                    lemma_mul_inequality(
                        row_sum(row.votes.take(e as int + 1)) as int,
                        row_sum(row.votes) as int,
                        p as int,
                    );
                    let tkr1 = rv.take(r as int + 1);
                    assert(tkr1.drop_last() =~= rv.take(r as int));
                    assert(tkr1.last() == rv[r as int]);
                    lemma_support_prefix_le(rv, pv, r as int + 1);
                }
                return Err(GaugeError::Overflow);
            }
            e = e + 1;
        }
        proof {
            assert(row.votes.take(e as int) =~= row.votes);
            let tkr1 = rv.take(r as int + 1);
            assert(tkr1.drop_last() =~= rv.take(r as int));
            assert(tkr1.last() == rv[r as int]);
        }
        r = r + 1;
    }
    proof {
        assert(rv.take(r as int) =~= rv);
    }
    Ok((totals, grand))
}

} // verus!
