use vstd::prelude::*;

use crate::state::{rows_sorted, VoteInfo, VoteInfoView, VoteView};
use crate::strorder::{
    lemma_lex_lt_irreflexive, lemma_lex_lt_total, lemma_lex_lt_transitive,
    lex_lt, str_lt,
};
use crate::tally::rows_view;

verus! {

/// The allocation a ledger stores for `voter`, if any: the votes of the
/// first row naming the voter.
pub open spec fn row_of(rows: Seq<VoteInfoView>, voter: Seq<char>) -> Option<Seq<VoteView>>
    decreases rows.len(),
{
    if rows.len() == 0 {
        None
    } else if rows[0].voter == voter {
        Some(rows[0].votes)
    } else {
        row_of(rows.drop_first(), voter)
    }
}

/// A ledger after storing `row`: the sorted position is found, a row of
/// the same voter is replaced wholesale, any other ledger row is kept.
pub open spec fn place_row(rows: Seq<VoteInfoView>, row: VoteInfoView) -> Seq<VoteInfoView>
    decreases rows.len(),
{
    if rows.len() == 0 {
        seq![row]
    } else if lex_lt(rows[0].voter, row.voter) {
        seq![rows[0]] + place_row(rows.drop_first(), row)
    } else if rows[0].voter == row.voter {
        seq![row] + rows.drop_first()
    } else {
        seq![row] + rows
    }
}

/// A ledger after clearing `voter`'s allocation: the first row naming
/// the voter is dropped, every other row is kept.
pub open spec fn remove_row(rows: Seq<VoteInfoView>, voter: Seq<char>) -> Seq<VoteInfoView>
    decreases rows.len(),
{
    if rows.len() == 0 {
        rows
    } else if rows[0].voter == voter {
        rows.drop_first()
    } else {
        seq![rows[0]] + remove_row(rows.drop_first(), voter)
    }
}

/// A ledger in which no row names `voter` stores nothing for the voter.
pub proof fn lemma_row_of_absent(rows: Seq<VoteInfoView>, voter: Seq<char>)
    requires
        forall|i: int| 0 <= i < rows.len() ==> (#[trigger] rows[i]).voter != voter,
    ensures
        row_of(rows, voter) == None::<Seq<VoteView>>,
    decreases rows.len(),
{
    if rows.len() > 0 {
        assert forall|i: int|
            0 <= i < rows.drop_first().len() implies (#[trigger] rows.drop_first()[i]).voter
            != voter by {
            assert(rows.drop_first()[i] == rows[i + 1]);
        }
        lemma_row_of_absent(rows.drop_first(), voter);
    }
}

/// Replace semantics, the voter's own side: after storing `row`, the
/// ledger's allocation for that voter is exactly the new one.
pub proof fn lemma_place_row_self(rows: Seq<VoteInfoView>, row: VoteInfoView)
    ensures
        row_of(place_row(rows, row), row.voter) == Some(row.votes),
    decreases rows.len(),
{
    if rows.len() > 0 && lex_lt(rows[0].voter, row.voter) {
        lemma_lex_lt_irreflexive(rows[0].voter);
        assert(rows[0].voter != row.voter);
        lemma_place_row_self(rows.drop_first(), row);
        assert(place_row(rows, row)[0] == rows[0]);
        assert(place_row(rows, row).drop_first() =~= place_row(rows.drop_first(), row));
    }
}

/// Replace semantics, everyone else's side: storing a row for one voter
/// leaves every other voter's stored allocation untouched.
pub proof fn lemma_place_row_other(rows: Seq<VoteInfoView>, row: VoteInfoView, w: Seq<char>)
    requires
        w != row.voter,
    ensures
        row_of(place_row(rows, row), w) == row_of(rows, w),
    decreases rows.len(),
{
    let out = place_row(rows, row);
    if rows.len() == 0 {
        assert(out == seq![row]);
        assert(out.drop_first() =~= Seq::<VoteInfoView>::empty());
        assert(row_of(out, w) == row_of(out.drop_first(), w));
    } else if lex_lt(rows[0].voter, row.voter) {
        lemma_place_row_other(rows.drop_first(), row, w);
        assert(out[0] == rows[0]);
        assert(out.drop_first() =~= place_row(rows.drop_first(), row));
        if rows[0].voter == w {
            assert(row_of(out, w) == Some(out[0].votes));
            assert(row_of(rows, w) == Some(rows[0].votes));
        } else {
            assert(row_of(out, w) == row_of(out.drop_first(), w));
            assert(row_of(rows, w) == row_of(rows.drop_first(), w));
        }
    } else if rows[0].voter == row.voter {
        assert(out[0] == row);
        assert(out.drop_first() =~= rows.drop_first());
        assert(row_of(out, w) == row_of(out.drop_first(), w));
        assert(row_of(rows, w) == row_of(rows.drop_first(), w));
    } else {
        assert(out[0] == row);
        assert(out.drop_first() =~= rows);
        assert(row_of(out, w) == row_of(out.drop_first(), w));
    }
}

/// Clearing semantics, the voter's own side: in a sorted ledger, after
/// clearing, nothing is stored for the voter.
pub proof fn lemma_remove_row_self(rows: Seq<VoteInfoView>, voter: Seq<char>)
    requires
        rows_sorted(rows),
    ensures
        row_of(remove_row(rows, voter), voter) == None::<Seq<VoteView>>,
    decreases rows.len(),
{
    if rows.len() > 0 {
        if rows[0].voter == voter {
            assert forall|i: int|
                0 <= i < rows.drop_first().len() implies (#[trigger] rows.drop_first()[i]).voter
                != voter by {
                assert(rows.drop_first()[i] == rows[i + 1]);
                assert(lex_lt(rows[0].voter, rows[i + 1].voter));
                lemma_lex_lt_irreflexive(voter);
            }
            lemma_row_of_absent(rows.drop_first(), voter);
        } else {
            assert forall|i: int, j: int|
                0 <= i < j < rows.drop_first().len() implies lex_lt(
                (#[trigger] rows.drop_first()[i]).voter,
                (#[trigger] rows.drop_first()[j]).voter,
            ) by {
                assert(rows.drop_first()[i] == rows[i + 1]);
                assert(rows.drop_first()[j] == rows[j + 1]);
            }
            lemma_remove_row_self(rows.drop_first(), voter);
            assert(remove_row(rows, voter)[0] == rows[0]);
            assert(remove_row(rows, voter).drop_first() =~= remove_row(rows.drop_first(), voter));
        }
    }
}

/// Clearing semantics, everyone else's side.
pub proof fn lemma_remove_row_other(rows: Seq<VoteInfoView>, voter: Seq<char>, w: Seq<char>)
    requires
        w != voter,
    ensures
        row_of(remove_row(rows, voter), w) == row_of(rows, w),
    decreases rows.len(),
{
    if rows.len() > 0 {
        if rows[0].voter == voter {
        } else {
            lemma_remove_row_other(rows.drop_first(), voter, w);
            assert(remove_row(rows, voter)[0] == rows[0]);
            assert(remove_row(rows, voter).drop_first() =~= remove_row(rows.drop_first(), voter));
        }
    }
}

/// Storing a row keeps the ledger sorted.
pub proof fn lemma_place_row_sorted(rows: Seq<VoteInfoView>, row: VoteInfoView)
    requires
        rows_sorted(rows),
    ensures
        rows_sorted(place_row(rows, row)),
    decreases rows.len(),
{
    let out = place_row(rows, row);
    if rows.len() == 0 {
    } else if lex_lt(rows[0].voter, row.voter) {
        assert forall|i: int, j: int|
            0 <= i < j < rows.drop_first().len() implies lex_lt(
            (#[trigger] rows.drop_first()[i]).voter,
            (#[trigger] rows.drop_first()[j]).voter,
        ) by {
            assert(rows.drop_first()[i] == rows[i + 1]);
            assert(rows.drop_first()[j] == rows[j + 1]);
        }
        lemma_place_row_sorted(rows.drop_first(), row);
        let sub = place_row(rows.drop_first(), row);
        assert(out =~= seq![rows[0]] + sub);
        // the head is below the stored row and below every old row, so it
        // is below everything in the sorted tail
        assert forall|j: int| 0 <= j < sub.len() implies lex_lt(rows[0].voter, sub[j].voter) by {
            lemma_place_head_bound(rows.drop_first(), row, rows[0].voter, j);
        }
        assert forall|i: int, j: int| 0 <= i < j < out.len() implies lex_lt(
            (#[trigger] out[i]).voter,
            (#[trigger] out[j]).voter,
        ) by {
            if i == 0 {
                assert(out[j] == sub[j - 1]);
            } else {
                assert(out[i] == sub[i - 1]);
                assert(out[j] == sub[j - 1]);
            }
        }
    } else if rows[0].voter == row.voter {
        assert(out =~= seq![row] + rows.drop_first());
        assert forall|i: int, j: int| 0 <= i < j < out.len() implies lex_lt(
            (#[trigger] out[i]).voter,
            (#[trigger] out[j]).voter,
        ) by {
            if i == 0 {
                assert(out[j] == rows[j]);
                assert(lex_lt(rows[0].voter, rows[j].voter));
            } else {
                assert(out[i] == rows[i]);
                assert(out[j] == rows[j]);
            }
        }
    } else {
        lemma_lex_lt_total(rows[0].voter, row.voter);
        assert(lex_lt(row.voter, rows[0].voter));
        assert(out =~= seq![row] + rows);
        assert forall|i: int, j: int| 0 <= i < j < out.len() implies lex_lt(
            (#[trigger] out[i]).voter,
            (#[trigger] out[j]).voter,
        ) by {
            if i == 0 {
                assert(out[j] == rows[j - 1]);
                if j > 1 {
                    lemma_lex_lt_transitive(row.voter, rows[0].voter, rows[j - 1].voter);
                }
            } else {
                assert(out[i] == rows[i - 1]);
                assert(out[j] == rows[j - 1]);
            }
        }
    }
}

/// In a sorted ledger whose head is below both the stored row and every
/// other row, the head is below everything in the updated ledger.
proof fn lemma_place_head_bound(rows: Seq<VoteInfoView>, row: VoteInfoView, head: Seq<char>, j: int)
    requires
        lex_lt(head, row.voter),
        forall|i: int| 0 <= i < rows.len() ==> lex_lt(head, (#[trigger] rows[i]).voter),
        0 <= j < place_row(rows, row).len(),
    ensures
        lex_lt(head, place_row(rows, row)[j].voter),
    decreases rows.len(),
{
    let out = place_row(rows, row);
    if rows.len() == 0 {
        assert(out[j] == row);
    } else if lex_lt(rows[0].voter, row.voter) {
        if j == 0 {
            assert(out[0] == rows[0]);
        } else {
            assert(out[j] == place_row(rows.drop_first(), row)[j - 1]);
            assert forall|i: int|
                0 <= i < rows.drop_first().len() implies lex_lt(
                head,
                (#[trigger] rows.drop_first()[i]).voter,
            ) by {
                assert(rows.drop_first()[i] == rows[i + 1]);
            }
            lemma_place_head_bound(rows.drop_first(), row, head, j - 1);
        }
    } else if rows[0].voter == row.voter {
        if j == 0 {
            assert(out[0] == row);
        } else {
            assert(out[j] == rows.drop_first()[j - 1]);
            assert(rows.drop_first()[j - 1] == rows[j]);
        }
    } else {
        if j == 0 {
            assert(out[0] == row);
        } else {
            assert(out[j] == rows[j - 1]);
        }
    }
}

/// Clearing a voter keeps the ledger sorted.
pub proof fn lemma_remove_row_sorted(rows: Seq<VoteInfoView>, voter: Seq<char>)
    requires
        rows_sorted(rows),
    ensures
        rows_sorted(remove_row(rows, voter)),
    decreases rows.len(),
{
    let out = remove_row(rows, voter);
    if rows.len() > 0 {
        assert forall|i: int, j: int|
            0 <= i < j < rows.drop_first().len() implies lex_lt(
            (#[trigger] rows.drop_first()[i]).voter,
            (#[trigger] rows.drop_first()[j]).voter,
        ) by {
            assert(rows.drop_first()[i] == rows[i + 1]);
            assert(rows.drop_first()[j] == rows[j + 1]);
        }
        if rows[0].voter == voter {
        } else {
            lemma_remove_row_sorted(rows.drop_first(), voter);
            let sub = remove_row(rows.drop_first(), voter);
            assert(out =~= seq![rows[0]] + sub);
            assert forall|j: int| 0 <= j < sub.len() implies lex_lt(rows[0].voter, sub[j].voter) by {
                lemma_remove_elem_of(rows.drop_first(), voter, j);
            }
            assert forall|i: int, j: int| 0 <= i < j < out.len() implies lex_lt(
                (#[trigger] out[i]).voter,
                (#[trigger] out[j]).voter,
            ) by {
                if i == 0 {
                    assert(out[j] == sub[j - 1]);
                } else {
                    assert(out[i] == sub[i - 1]);
                    assert(out[j] == sub[j - 1]);
                }
            }
        }
    }
}

/// Every row of a cleared ledger is a row of the original ledger.
pub proof fn lemma_remove_elem_of(rows: Seq<VoteInfoView>, voter: Seq<char>, j: int)
    requires
        0 <= j < remove_row(rows, voter).len(),
    ensures
        exists|i: int|
            0 <= i < rows.len() && #[trigger] rows[i] == remove_row(rows, voter)[j],
    decreases rows.len(),
{
    let out = remove_row(rows, voter);
    if rows[0].voter == voter {
        assert(out[j] == rows.drop_first()[j]);
        assert(rows[j + 1] == out[j]);
    } else {
        if j == 0 {
            assert(rows[0] == out[0]);
        } else {
            lemma_remove_elem_of(rows.drop_first(), voter, j - 1);
            assert(out[j] == remove_row(rows.drop_first(), voter)[j - 1]);
            let i0 = choose|i: int|
                0 <= i < rows.drop_first().len() && #[trigger] rows.drop_first()[i] == remove_row(
                    rows.drop_first(),
                    voter,
                )[j - 1];
            assert(rows[i0 + 1] == out[j]);
        }
    }
}

/// Every row of an updated ledger is the stored row or a row of the
/// original ledger.
pub proof fn lemma_place_elem_of(rows: Seq<VoteInfoView>, row: VoteInfoView, j: int)
    requires
        0 <= j < place_row(rows, row).len(),
    ensures
        place_row(rows, row)[j] == row || exists|i: int|
            0 <= i < rows.len() && #[trigger] rows[i] == place_row(rows, row)[j],
    decreases rows.len(),
{
    let out = place_row(rows, row);
    if rows.len() == 0 {
        assert(out[j] == row);
    } else if lex_lt(rows[0].voter, row.voter) {
        if j == 0 {
            assert(rows[0] == out[0]);
        } else {
            lemma_place_elem_of(rows.drop_first(), row, j - 1);
            assert(out[j] == place_row(rows.drop_first(), row)[j - 1]);
            if out[j] != row {
                let i0 = choose|i: int|
                    0 <= i < rows.drop_first().len() && #[trigger] rows.drop_first()[i]
                        == place_row(rows.drop_first(), row)[j - 1];
                assert(rows[i0 + 1] == out[j]);
            }
        }
    } else if rows[0].voter == row.voter {
        if j > 0 {
            assert(out[j] == rows.drop_first()[j - 1]);
            assert(rows[j] == out[j]);
        }
    } else {
        if j > 0 {
            assert(out[j] == rows[j - 1]);
        }
    }
}

/// Stores `row` at its sorted position, replacing the voter's old row if
/// one exists.
pub fn ledger_place(rows: &mut Vec<VoteInfo>, row: VoteInfo)
    ensures
        rows_view(final(rows)@) == place_row(rows_view(old(rows)@), row@),
{
    let ghost rv = rows_view(rows@);
    let ghost target = row@;
    proof {
        assert(rv.take(0) =~= Seq::<VoteInfoView>::empty());
        assert(rv.skip(0) =~= rv);
    }
    let mut i: usize = 0;
    while i < rows.len() && str_lt(&rows[i].voter, &row.voter)
        invariant
            rv == rows_view(rows@),
            target == row@,
            rv.len() == rows.len(),
            0 <= i <= rows.len(),
            place_row(rv, target) == rv.take(i as int) + place_row(rv.skip(i as int), target),
        decreases rows.len() - i,
    {
        proof {
            assert(rv.skip(i as int)[0] == rv[i as int]);
            assert(rv.skip(i as int).drop_first() =~= rv.skip(i as int + 1));
            assert(place_row(rv.skip(i as int), target) == seq![rv[i as int]] + place_row(
                rv.skip(i as int + 1),
                target,
            ));
            assert(rv.take(i as int) + place_row(rv.skip(i as int), target) =~= rv.take(
                i as int + 1,
            ) + place_row(rv.skip(i as int + 1), target));
        }
        i = i + 1;
    }
    if i == rows.len() {
        proof {
            assert(rv.skip(i as int) =~= Seq::<VoteInfoView>::empty());
            assert(place_row(rv.skip(i as int), target) == seq![target]);
        }
        rows.push(row);
        proof {
            assert(rows_view(rows@) =~= rv.take(rv.len() as int) + seq![target]);
        }
    } else if rows[i].voter.eq(&row.voter) {
        proof {
            assert(rv.skip(i as int)[0] == rv[i as int]);
            assert(rv[i as int].voter == target.voter);
            assert(place_row(rv.skip(i as int), target) == seq![target] + rv.skip(
                i as int,
            ).drop_first());
            assert(rv.skip(i as int).drop_first() =~= rv.skip(i as int + 1));
        }
        rows.set(i, row);
        proof {
            assert(rows_view(rows@) =~= rv.take(i as int) + (seq![target] + rv.skip(i as int + 1)));
        }
    } else {
        proof {
            assert(rv.skip(i as int)[0] == rv[i as int]);
            assert(place_row(rv.skip(i as int), target) == seq![target] + rv.skip(i as int));
        }
        rows.insert(i, row);
        proof {
            assert(rows_view(rows@) =~= rv.take(i as int) + (seq![target] + rv.skip(i as int)));
        }
    }
}

/// Clears `voter`'s row, if one exists.
pub fn ledger_remove(rows: &mut Vec<VoteInfo>, voter: &String)
    ensures
        rows_view(final(rows)@) == remove_row(rows_view(old(rows)@), voter@),
{
    let ghost rv = rows_view(rows@);
    proof {
        assert(rv.take(0) =~= Seq::<VoteInfoView>::empty());
        assert(rv.skip(0) =~= rv);
    }
    let mut i: usize = 0;
    while i < rows.len()
        invariant
            rv == rows_view(rows@),
            rv == rows_view(old(rows)@),
            rv.len() == rows.len(),
            0 <= i <= rows.len(),
            remove_row(rv, voter@) == rv.take(i as int) + remove_row(rv.skip(i as int), voter@),
        decreases rows.len() - i,
    {
        proof {
            assert(rv.skip(i as int)[0] == rv[i as int]);
            assert(rv.skip(i as int).drop_first() =~= rv.skip(i as int + 1));
        }
        if rows[i].voter.eq(voter) {
            proof {
                assert(remove_row(rv.skip(i as int), voter@) == rv.skip(i as int + 1));
            }
            rows.remove(i);
            proof {
                assert(rows_view(rows@) =~= rv.take(i as int) + rv.skip(i as int + 1));
            }
            return ;
        }
        proof {
            assert(remove_row(rv.skip(i as int), voter@) == seq![rv[i as int]] + remove_row(
                rv.skip(i as int + 1),
                voter@,
            ));
            assert(rv.take(i as int) + remove_row(rv.skip(i as int), voter@) =~= rv.take(
                i as int + 1,
            ) + remove_row(rv.skip(i as int + 1), voter@));
        }
        i = i + 1;
    }
    proof {
        assert(rv.skip(i as int) =~= Seq::<VoteInfoView>::empty());
        assert(rows_view(rows@) =~= rv.take(i as int) + remove_row(rv.skip(i as int), voter@));
    }
}

/// Index of the row naming `voter`, if any.
pub fn ledger_find(rows: &Vec<VoteInfo>, voter: &String) -> (r: Option<usize>)
    ensures
        match r {
            Some(i) => {
                &&& 0 <= i < rows.len()
                &&& rows_view(rows@)[i as int].voter == voter@
                &&& row_of(rows_view(rows@), voter@) == Some(rows_view(rows@)[i as int].votes)
            },
            None => row_of(rows_view(rows@), voter@) == None::<Seq<VoteView>>,
        },
{
    let ghost rv = rows_view(rows@);
    proof {
        assert(rv.skip(0) =~= rv);
    }
    let mut i: usize = 0;
    while i < rows.len()
        invariant
            rv == rows_view(rows@),
            rv.len() == rows.len(),
            0 <= i <= rows.len(),
            row_of(rv, voter@) == row_of(rv.skip(i as int), voter@),
        decreases rows.len() - i,
    {
        proof {
            assert(rv.skip(i as int)[0] == rv[i as int]);
            assert(rv.skip(i as int).drop_first() =~= rv.skip(i as int + 1));
        }
        if rows[i].voter.eq(voter) {
            return Some(i);
        }
        i = i + 1;
    }
    proof {
        assert(rv.skip(i as int) =~= Seq::<VoteInfoView>::empty());
    }
    None
}

} // verus!
