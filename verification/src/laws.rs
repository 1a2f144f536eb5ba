use vstd::prelude::*;
use vstd::arithmetic::mul::*;

use crate::select::{
    argmax_idx, capped, eligible, filtered, lemma_argmax_props,
    lemma_sort_desc_elems, lemma_sort_desc_len, selected_pairs, selected_set_of, sort_desc,
};
use crate::state::{
    cap_atomics, min_atomics, row_sum, rows_wf, wf, ControllerView, GaugeStateView, SCALE,
};
use crate::tally::{option_total, row_weight, support_total};

verus! {

/// Weight conservation: in any well-formed engine state, every stored
/// allocation's weights sum to at most one whole.  The operations all
/// preserve well-formedness, and a submission that would break this is
/// rejected with the prior allocation untouched.
pub proof fn lemma_weight_conservation(c: ControllerView, g: int, i: int)
    requires
        wf(c),
        0 <= g < c.gauges.len(),
        0 <= i < c.gauges[g].votes.len(),
    ensures
        row_sum(c.gauges[g].votes[i].votes) <= SCALE,
{
}

/// Determinism: the selected set is a pure function of the stored votes,
/// the option registry, the three selection tunables and the power
/// snapshot.  In particular it does not depend on the schedule, the stop
/// flag, the title, the adapter or any previously executed set.
pub proof fn lemma_selected_set_deterministic(
    s1: GaugeStateView,
    s2: GaugeStateView,
    powers: Seq<(Seq<char>, u64)>,
)
    requires
        s1.options == s2.options,
        s1.votes == s2.votes,
        s1.gauge.min_percent_selected == s2.gauge.min_percent_selected,
        s1.gauge.max_options_selected == s2.gauge.max_options_selected,
        s1.gauge.max_available_percentage == s2.gauge.max_available_percentage,
    ensures
        selected_set_of(s1, powers) == selected_set_of(s2, powers),
{
}

/// A stricter threshold admits no more options than a looser one.
proof fn lemma_filtered_len_monotone(totals: Seq<nat>, grand: nat, m1: nat, m2: nat)
    requires
        m1 <= m2,
    ensures
        filtered(totals, grand, m2).len() <= filtered(totals, grand, m1).len(),
    decreases totals.len(),
{
    if totals.len() > 0 {
        lemma_filtered_len_monotone(totals.drop_last(), grand, m1, m2);
        if eligible(totals.last(), grand, m2) {
            lemma_mul_inequality(m1 as int, m2 as int, grand as int);
            assert(eligible(totals.last(), grand, m1));
        }
    }
}

/// Threshold monotonicity: raising the minimum share never enlarges the
/// selected set, for a fixed tally, result cap and availability cap.
pub proof fn lemma_threshold_monotonic(
    totals: Seq<nat>,
    grand: nat,
    m1: nat,
    m2: nat,
    k: nat,
    cap_at: nat,
)
    requires
        m1 <= m2,
    ensures
        selected_pairs(totals, grand, m2, k, cap_at).len() <= selected_pairs(
            totals,
            grand,
            m1,
            k,
            cap_at,
        ).len(),
{
    lemma_filtered_len_monotone(totals, grand, m1, m2);
    lemma_sort_desc_len(filtered(totals, grand, m1));
    lemma_sort_desc_len(filtered(totals, grand, m2));
}

/// Threshold monotonicity at the gauge level: two gauges identical but
/// for the threshold, the stricter one selects no more options.
pub proof fn lemma_threshold_monotonic_sets(
    s1: GaugeStateView,
    s2: GaugeStateView,
    powers: Seq<(Seq<char>, u64)>,
)
    requires
        s1.options == s2.options,
        s1.votes == s2.votes,
        s1.gauge.max_options_selected == s2.gauge.max_options_selected,
        s1.gauge.max_available_percentage == s2.gauge.max_available_percentage,
        min_atomics(s1.gauge.min_percent_selected) <= min_atomics(s2.gauge.min_percent_selected),
    ensures
        selected_set_of(s2, powers).len() <= selected_set_of(s1, powers).len(),
{
    lemma_threshold_monotonic(
        crate::select::totals_of(s1.options, s1.votes, powers),
        support_total(s1.votes, powers),
        min_atomics(s1.gauge.min_percent_selected),
        min_atomics(s2.gauge.min_percent_selected),
        s1.gauge.max_options_selected as nat,
        cap_atomics(s1.gauge.max_available_percentage),
    );
}

/// Cap invariant: no selected entry carries more than the configured
/// fraction of the grand total; without a cap, no entry carries more
/// than the grand total itself.  The excess above the ceiling is
/// dropped, never redistributed to other entries.
pub proof fn lemma_cap_invariant(s: GaugeStateView, powers: Seq<(Seq<char>, u64)>, j: int)
    requires
        0 <= j < selected_set_of(s, powers).len(),
    ensures
        selected_set_of(s, powers)[j].1 <= (cap_atomics(s.gauge.max_available_percentage)
            * support_total(s.votes, powers)) / (SCALE as nat),
{
    let totals = crate::select::totals_of(s.options, s.votes, powers);
    let grand = support_total(s.votes, powers);
    let min_at = min_atomics(s.gauge.min_percent_selected);
    let k = s.gauge.max_options_selected as nat;
    let cap_at = cap_atomics(s.gauge.max_available_percentage);
    let pairs = selected_pairs(totals, grand, min_at, k, cap_at);
    assert(selected_set_of(s, powers)[j].1 == pairs[j].1);
    let ordered = sort_desc(filtered(totals, grand, min_at));
    let kk = if k < ordered.len() {
        k as int
    } else {
        ordered.len() as int
    };
    assert(pairs[j] == (ordered.take(kk)[j].0, capped(ordered.take(kk)[j].1, grand, cap_at)));
}

/// Ordering: with pairwise distinct, position-increasing indices, the
/// selection ordering is strictly descending by support, and a tie in
/// support puts the earlier-registered option first.
pub proof fn lemma_sort_desc_ordered(s: Seq<(int, nat)>)
    requires
        forall|t: int, u: int| 0 <= t < u < s.len() ==> (#[trigger] s[t]).0 < (#[trigger] s[u]).0,
    ensures
        forall|i: int, j: int|
            0 <= i < j < sort_desc(s).len() ==> (#[trigger] sort_desc(s)[i]).1 > (
            #[trigger] sort_desc(s)[j]).1 || (sort_desc(s)[i].1 == sort_desc(s)[j].1
                && sort_desc(s)[i].0 < sort_desc(s)[j].0),
    decreases s.len(),
{
    if s.len() > 0 {
        lemma_argmax_props(s);
        let am = argmax_idx(s);
        let head = s[am];
        let rest = s.remove(am);
        let out = sort_desc(s);
        assert(out == seq![head] + sort_desc(rest));
        assert forall|t: int, u: int|
            0 <= t < u < rest.len() implies (#[trigger] rest[t]).0 < (#[trigger] rest[u]).0 by {
            if t < am {
                assert(rest[t] == s[t]);
            } else {
                assert(rest[t] == s[t + 1]);
            }
            if u < am {
                assert(rest[u] == s[u]);
            } else {
                assert(rest[u] == s[u + 1]);
            }
        }
        lemma_sort_desc_ordered(rest);
        // every pair below the head is dominated by it
        assert forall|t: int| 0 <= t < rest.len() implies (head.1 > (#[trigger] rest[t]).1 || (
        head.1 == rest[t].1 && head.0 < rest[t].0)) by {
            if t < am {
                assert(rest[t] == s[t]);
                assert(s[t].1 < s[am].1);
            } else {
                assert(rest[t] == s[t + 1]);
                assert(s[t + 1].1 <= s[am].1);
                if s[t + 1].1 == s[am].1 {
                    assert(s[am].0 < s[t + 1].0);
                }
            }
        }
        lemma_sort_desc_elems(
            rest,
            |p: (int, nat)| head.1 > p.1 || (head.1 == p.1 && head.0 < p.0),
        );
        lemma_sort_desc_len(rest);
        assert forall|i: int, j: int|
            0 <= i < j < out.len() implies (#[trigger] out[i]).1 > (#[trigger] out[j]).1 || (
        out[i].1 == out[j].1 && out[i].0 < out[j].0) by {
            if i == 0 {
                assert(out[j] == sort_desc(rest)[j - 1]);
            } else {
                assert(out[i] == sort_desc(rest)[i - 1]);
                assert(out[j] == sort_desc(rest)[j - 1]);
            }
        }
    }
}

/// Sum of each option's support over a list of options.
pub open spec fn total_over_options(
    options: Seq<Seq<char>>,
    rows: Seq<crate::state::VoteInfoView>,
    powers: Seq<(Seq<char>, u64)>,
) -> nat
    decreases options.len(),
{
    if options.len() == 0 {
        0
    } else {
        total_over_options(options.drop_last(), rows, powers) + option_total(
            rows,
            powers,
            options.last(),
        )
    }
}

/// The weight one allocation spreads over a list of distinct options
/// that covers every option it references is its whole weight: nothing
/// is counted twice and nothing is lost.
proof fn lemma_row_weight_partition(votes: Seq<crate::state::VoteView>, options: Seq<Seq<char>>)
    requires
        forall|i: int, j: int| 0 <= i < j < options.len() ==> options[i] != options[j],
        forall|i: int, j: int| 0 <= i < j < votes.len() ==> votes[i].option != votes[j].option,
        forall|i: int|
            0 <= i < votes.len() ==> crate::state::has_option(
                options,
                (#[trigger] votes[i]).option,
            ),
    ensures
        sum_row_weight(votes, options) == row_sum(votes),
    decreases votes.len(),
{
    if votes.len() == 0 {
        lemma_sum_row_weight_zero(votes, options);
    } else {
        let pre = votes.drop_last();
        assert forall|i: int|
            0 <= i < pre.len() implies crate::state::has_option(
            options,
            (#[trigger] pre[i]).option,
        ) by {
            assert(pre[i] == votes[i]);
        }
        lemma_row_weight_partition(pre, options);
        let o = votes.last().option;
        let oi = choose|t: int| 0 <= t < options.len() && options[t] == o;
        lemma_sum_row_weight_step(votes, options, oi);
    }
}

/// Per-option weights of one allocation summed over a list of options.
pub open spec fn sum_row_weight(
    votes: Seq<crate::state::VoteView>,
    options: Seq<Seq<char>>,
) -> nat
    decreases options.len(),
{
    if options.len() == 0 {
        0
    } else {
        sum_row_weight(votes, options.drop_last()) + row_weight(votes, options.last())
    }
}

/// An empty allocation weighs nothing over any option list.
proof fn lemma_sum_row_weight_zero(votes: Seq<crate::state::VoteView>, options: Seq<Seq<char>>)
    requires
        votes.len() == 0,
    ensures
        sum_row_weight(votes, options) == 0,
    decreases options.len(),
{
    if options.len() > 0 {
        lemma_sum_row_weight_zero(votes, options.drop_last());
    }
}

/// Dropping an allocation's last entry lowers its summed per-option
/// weight by that entry's weight, provided the entry's option occurs
/// exactly once in the list.
proof fn lemma_sum_row_weight_step(
    votes: Seq<crate::state::VoteView>,
    options: Seq<Seq<char>>,
    oi: int,
)
    requires
        votes.len() > 0,
        0 <= oi < options.len(),
        options[oi] == votes.last().option,
        forall|i: int, j: int| 0 <= i < j < options.len() ==> options[i] != options[j],
    ensures
        sum_row_weight(votes, options) == sum_row_weight(votes.drop_last(), options)
            + votes.last().weight,
    decreases options.len(),
{
    let pre = votes.drop_last();
    let w = votes.last().weight;
    let o = votes.last().option;
    if oi == options.len() - 1 {
        assert(row_weight(votes, options.last()) == row_weight(pre, options.last()) + w);
        lemma_sum_row_weight_agree(votes, options.drop_last());
    } else {
        assert(options.drop_last()[oi] == options[oi]);
        lemma_sum_row_weight_step(votes, options.drop_last(), oi);
        assert(options.last() != o);
        assert(row_weight(votes, options.last()) == row_weight(pre, options.last()));
    }
}

/// Two allocations differing only in an entry whose option a list never
/// names weigh the same over that list.
proof fn lemma_sum_row_weight_agree(votes: Seq<crate::state::VoteView>, options: Seq<Seq<char>>)
    requires
        votes.len() > 0,
        forall|t: int| 0 <= t < options.len() ==> options[t] != votes.last().option,
    ensures
        sum_row_weight(votes, options) == sum_row_weight(votes.drop_last(), options),
    decreases options.len(),
{
    if options.len() > 0 {
        assert forall|t: int|
            0 <= t < options.drop_last().len() implies options.drop_last()[t]
            != votes.last().option by {
            assert(options.drop_last()[t] == options[t]);
        }
        lemma_sum_row_weight_agree(votes, options.drop_last());
        assert(row_weight(votes, options.last()) == row_weight(
            votes.drop_last(),
            options.last(),
        ));
    }
}

/// No double counting: in a well-formed gauge, the grand total the tally
/// reports equals the sum of the per-option supports over the whole
/// registry.
pub proof fn lemma_support_is_option_sum(
    options: Seq<Seq<char>>,
    rows: Seq<crate::state::VoteInfoView>,
    powers: Seq<(Seq<char>, u64)>,
)
    requires
        crate::state::options_wf(options),
        rows_wf(rows, options),
    ensures
        support_total(rows, powers) == total_over_options(options, rows, powers),
    decreases rows.len(),
{
    if rows.len() == 0 {
        lemma_total_over_options_zero(options, rows, powers);
    } else {
        let pre = rows.drop_last();
        assert forall|i: int|
            0 <= i < pre.len() implies crate::state::votes_wf(
            (#[trigger] pre[i]).votes,
            options,
        ) by {
            assert(pre[i] == rows[i]);
        }
        assert forall|i: int, j: int|
            0 <= i < j < pre.len() implies crate::strorder::lex_lt(
            (#[trigger] pre[i]).voter,
            (#[trigger] pre[j]).voter,
        ) by {
            assert(pre[i] == rows[i]);
            assert(pre[j] == rows[j]);
        }
        lemma_support_is_option_sum(options, pre, powers);
        let row = rows.last();
        let p = crate::tally::power_of(powers, row.voter);
        lemma_row_weight_partition(row.votes, options);
        lemma_total_over_options_last(options, rows, powers);
        lemma_scaled_partition(options, row.votes, p);
    }
}

/// Splitting the last row out of the option-wise sum.
proof fn lemma_total_over_options_last(
    options: Seq<Seq<char>>,
    rows: Seq<crate::state::VoteInfoView>,
    powers: Seq<(Seq<char>, u64)>,
)
    requires
        rows.len() > 0,
    ensures
        total_over_options(options, rows, powers) == total_over_options(
            options,
            rows.drop_last(),
            powers,
        ) + sum_scaled(options, rows.last().votes, crate::tally::power_of(
            powers,
            rows.last().voter,
        )),
    decreases options.len(),
{
    if options.len() > 0 {
        lemma_total_over_options_last(options.drop_last(), rows, powers);
    }
}

/// One voter's power times their per-option weights, summed over a list
/// of options.
pub open spec fn sum_scaled(
    options: Seq<Seq<char>>,
    votes: Seq<crate::state::VoteView>,
    p: nat,
) -> nat
    decreases options.len(),
{
    if options.len() == 0 {
        0
    } else {
        sum_scaled(options.drop_last(), votes, p) + p * row_weight(votes, options.last())
    }
}

/// Factoring the power out of the option-wise sum of one voter's
/// weights.
proof fn lemma_scaled_partition(
    options: Seq<Seq<char>>,
    votes: Seq<crate::state::VoteView>,
    p: nat,
)
    ensures
        sum_scaled(options, votes, p) == p * sum_row_weight(votes, options),
    decreases options.len(),
{
    if options.len() == 0 {
        assert(p * sum_row_weight(votes, options) == 0) by (nonlinear_arith)
            requires
                sum_row_weight(votes, options) == 0,
        {}
    } else {
        lemma_scaled_partition(options.drop_last(), votes, p);
        lemma_mul_is_distributive_add(
            p as int,
            sum_row_weight(votes, options.drop_last()) as int,
            row_weight(votes, options.last()) as int,
        );
    }
}

/// An empty ledger supports nothing anywhere.
proof fn lemma_total_over_options_zero(
    options: Seq<Seq<char>>,
    rows: Seq<crate::state::VoteInfoView>,
    powers: Seq<(Seq<char>, u64)>,
)
    requires
        rows.len() == 0,
    ensures
        total_over_options(options, rows, powers) == 0,
    decreases options.len(),
{
    if options.len() > 0 {
        lemma_total_over_options_zero(options.drop_last(), rows, powers);
    }
}

} // verus!
