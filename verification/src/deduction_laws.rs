//! What holds of every deduction from a category that succeeds.

use crate::ledger::{category_total, lemma_total_with_quantity, with_quantity, Row};
use crate::upgrade::{deduct_category, lemma_richest, richest, taken_from_category};
use crate::upgrade_laws::same_rows;
use vstd::prelude::*;

verus! {

/// Whether `after` is `before` with an amount taken from the category
/// `category` from the richest row down.
///
/// The rows keep their names and categories; rows of other categories and
/// rows that hold nothing stay as they are; no row gains and no row is
/// overdrawn. The order is greedy: where a row gave something, every richer
/// row of the category gave all it had; and at most one row gave a part of
/// what it had and kept the rest.
pub open spec fn taken_greedily(before: Seq<Row>, after: Seq<Row>, category: Seq<char>) -> bool {
    &&& same_rows(before, after)
    &&& forall|i: int|
        0 <= i < before.len() && before[i].category != category ==> #[trigger] after[i]
            == before[i]
    &&& forall|i: int|
        0 <= i < before.len() && before[i].quantity <= 0 ==> (#[trigger] after[i]).quantity
            == before[i].quantity
    &&& forall|i: int| 0 <= i < before.len() ==> (#[trigger] after[i]).quantity <= before[i].quantity
    &&& forall|i: int|
        0 <= i < before.len() && before[i].quantity >= 0 ==> (#[trigger] after[i]).quantity >= 0
    &&& forall|i: int, j: int|
        #![trigger after[i], after[j]]
        0 <= i < before.len() && 0 <= j < before.len() && before[i].category == category
            && after[j].quantity < before[j].quantity && before[i].quantity > before[j].quantity
            ==> after[i].quantity == 0
    &&& forall|i: int, j: int|
        #![trigger after[i], after[j]]
        0 <= i < before.len() && 0 <= j < before.len() && i != j && 0 < after[i].quantity
            < before[i].quantity ==> !(0 < after[j].quantity < before[j].quantity)
}

/// Whether the rows of the category `category` gave greedily between
/// `before` and `after`: none of them gained, none that held nothing or more
/// is overdrawn, and those that held nothing gave nothing; where one gave
/// something, every richer one gave all it had; and at most one gave a part of
/// what it had and kept the rest. Of rows of other categories this says
/// nothing but that they keep their names and categories.
pub open spec fn greedy_within(before: Seq<Row>, after: Seq<Row>, category: Seq<char>) -> bool {
    &&& same_rows(before, after)
    &&& forall|i: int|
        0 <= i < before.len() && before[i].category == category ==> (#[trigger] after[i]).quantity
            <= before[i].quantity && (before[i].quantity >= 0 ==> after[i].quantity >= 0) && (
        before[i].quantity <= 0 ==> after[i].quantity == before[i].quantity)
    &&& forall|i: int, j: int|
        #![trigger after[i], after[j]]
        0 <= i < before.len() && 0 <= j < before.len() && before[i].category == category
            && before[j].category == category && after[j].quantity < before[j].quantity
            && before[i].quantity > before[j].quantity ==> after[i].quantity == 0
    &&& forall|i: int, j: int|
        #![trigger after[i], after[j]]
        0 <= i < before.len() && 0 <= j < before.len() && i != j && before[i].category == category
            && before[j].category == category && 0 < after[i].quantity < before[i].quantity ==> !(
        0 < after[j].quantity < before[j].quantity)
}

/// Rows that gave greedily while the other rows stayed as they were gave
/// greedily within their category.
pub proof fn lemma_greedy_within(before: Seq<Row>, after: Seq<Row>, category: Seq<char>)
    requires
        taken_greedily(before, after, category),
    ensures
        greedy_within(before, after, category),
{
}

/// Whether the rows of the category gave greedily depends on those rows
/// alone.
pub proof fn lemma_greedy_within_frame(
    before: Seq<Row>,
    after: Seq<Row>,
    earlier: Seq<Row>,
    later: Seq<Row>,
    category: Seq<char>,
)
    requires
        greedy_within(before, after, category),
        same_rows(earlier, before),
        same_rows(after, later),
        forall|i: int|
            0 <= i < before.len() && before[i].category == category ==> (#[trigger] earlier[i])
                == before[i],
        forall|i: int|
            0 <= i < before.len() && before[i].category == category ==> (
            #[trigger] later[i]).quantity == after[i].quantity,
    ensures
        greedy_within(earlier, later, category),
{
    assert forall|i: int| 0 <= i < earlier.len() implies (#[trigger] later[i]).name
        == earlier[i].name && later[i].category == earlier[i].category by {
        assert(before[i].name == earlier[i].name);
        assert(after[i].name == before[i].name);
    }
    assert forall|i: int|
        0 <= i < earlier.len() && earlier[i].category == category implies (
    #[trigger] later[i]).quantity <= earlier[i].quantity && (earlier[i].quantity >= 0
        ==> later[i].quantity >= 0) && (earlier[i].quantity <= 0 ==> later[i].quantity
        == earlier[i].quantity) by {
        assert(before[i].category == category);
        assert(after[i].quantity <= before[i].quantity);
    }
    assert forall|i: int, j: int|
        #![trigger later[i], later[j]]
        0 <= i < earlier.len() && 0 <= j < earlier.len() && earlier[i].category == category
            && earlier[j].category == category && later[j].quantity < earlier[j].quantity
            && earlier[i].quantity > earlier[j].quantity implies later[i].quantity == 0 by {
        assert(before[i].category == category && before[j].category == category);
        assert(after[i].quantity == later[i].quantity && after[j].quantity == later[j].quantity);
    }
    assert forall|i: int, j: int|
        #![trigger later[i], later[j]]
        0 <= i < earlier.len() && 0 <= j < earlier.len() && i != j && earlier[i].category
            == category && earlier[j].category == category && 0 < later[i].quantity
            < earlier[i].quantity implies !(0 < later[j].quantity < earlier[j].quantity) by {
        assert(before[i].category == category && before[j].category == category);
        assert(after[i].quantity == later[i].quantity && after[j].quantity == later[j].quantity);
    }
}

/// A deduction in steps that succeeds takes the amount exactly, and takes it
/// greedily.
pub proof fn lemma_taken_is_greedy(rows: Seq<Row>, category: Seq<char>, amount: int, steps: nat)
    requires
        taken_from_category(rows, category, amount, steps) is Some,
    ensures
        taken_from_category(rows, category, amount, steps) matches Some(after) && {
            &&& taken_greedily(rows, after, category)
            &&& category_total(after, category) == category_total(rows, category) - if amount > 0 {
                amount
            } else {
                0
            }
        },
    decreases steps,
{
    if amount > 0 {
        lemma_richest(rows, category);
        let r = richest(rows, category)->0;
        let held = rows[r].quantity;
        let part = if held < amount {
            held
        } else {
            amount
        };
        let next = with_quantity(rows, r, held - part);
        lemma_taken_is_greedy(next, category, amount - part, (steps - 1) as nat);
        lemma_total_with_quantity(rows, r, held - part, category);
        let after = taken_from_category(next, category, amount - part, (steps - 1) as nat)->0;
        assert forall|i: int| 0 <= i < rows.len() implies (#[trigger] after[i]).name == rows[i].name
            && after[i].category == rows[i].category by {
            assert(next[i].name == rows[i].name);
        }
        assert forall|i: int| 0 <= i < rows.len() && rows[i].category != category implies #[trigger] after[i]
            == rows[i] by {
            assert(next[i] == rows[i]);
        }
        assert forall|i: int| 0 <= i < rows.len() && rows[i].quantity <= 0 implies (
        #[trigger] after[i]).quantity == rows[i].quantity by {
            assert(next[i] == rows[i]);
        }
        assert forall|i: int| 0 <= i < rows.len() implies (#[trigger] after[i]).quantity
            <= rows[i].quantity by {
            assert(next[i].quantity <= rows[i].quantity);
        }
        assert forall|i: int| 0 <= i < rows.len() && rows[i].quantity >= 0 implies (
        #[trigger] after[i]).quantity >= 0 by {
            assert(next[i].quantity >= 0);
        }
        assert forall|i: int, j: int|
            #![trigger after[i], after[j]]
            0 <= i < rows.len() && 0 <= j < rows.len() && rows[i].category == category
                && after[j].quantity < rows[j].quantity && rows[i].quantity
                > rows[j].quantity implies after[i].quantity == 0 by {
            assert(rows[j].quantity > 0);
            assert(rows[j].category == category);
            assert(rows[i].quantity <= rows[r].quantity);
            if j != r {
                assert(next[j] == rows[j]);
                if i != r {
                    assert(next[i] == rows[i]);
                    assert(next[i].category == category);
                } else {
                    if part == held {
                        assert(next[r].quantity == 0);
                        assert(after[r].quantity >= 0);
                        assert(after[r].quantity <= next[r].quantity);
                    } else {
                        assert(after == next);
                    }
                }
            }
        }
        assert forall|i: int, j: int|
            #![trigger after[i], after[j]]
            0 <= i < rows.len() && 0 <= j < rows.len() && i != j && 0 < after[i].quantity
                < rows[i].quantity implies !(0 < after[j].quantity < rows[j].quantity) by {
            if 0 < after[j].quantity < rows[j].quantity {
                if part == held {
                    assert(next[r].quantity == 0);
                    assert(after[r].quantity >= 0);
                    assert(after[r].quantity <= next[r].quantity);
                    assert(i != r && j != r);
                    assert(next[i] == rows[i]);
                    assert(next[j] == rows[j]);
                } else {
                    assert(after == next);
                    if i != r {
                        assert(next[i] == rows[i]);
                    } else {
                        assert(next[j] == rows[j]);
                    }
                }
            }
        }
    }
}

/// Greedy deduction, largest first: a deduction from a category that
/// succeeds takes exactly the amount from the category's total; no row is
/// overdrawn; where a row gave something, every richer row of the category
/// ends at nothing; and at most one row is consumed in part.
pub proof fn law_deduction_is_greedy(rows: Seq<Row>, category: Seq<char>, amount: int)
    requires
        0 <= amount,
        deduct_category(rows, category, amount) is Some,
    ensures
        deduct_category(rows, category, amount) matches Some(after) && {
            &&& taken_greedily(rows, after, category)
            &&& category_total(after, category) == category_total(rows, category) - amount
        },
{
    lemma_taken_is_greedy(rows, category, amount, rows.len());
}

} // verus!
