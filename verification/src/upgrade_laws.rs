//! What holds of every payment for an upgrade.

use crate::buildings::{costs_of_rows, BuildingConfig, Cost};
use crate::deduction_laws::{
    greedy_within, lemma_greedy_within, lemma_greedy_within_frame, lemma_taken_is_greedy,
};
use crate::ledger::{
    category_total, holdable, lemma_total_with_quantity, names, quantity_in, with_quantity, Row,
};
use crate::upgrade::{
    amount_of, available_for, deduct_category, deduct_resource, lacks, lemma_richest,
    paid, richest, taken_from_category, upgraded, Refusal,
};
use vstd::prelude::*;

verus! {

/// Whether `after` has the rows of `before` with, at most, other quantities.
pub open spec fn same_rows(before: Seq<Row>, after: Seq<Row>) -> bool {
    &&& after.len() == before.len()
    &&& forall|i: int|
        0 <= i < before.len() ==> (#[trigger] after[i]).name == before[i].name && after[i].category
            == before[i].category
}

/// Whether `cost` can draw on the row at `i`: the row of the resource it
/// names, or a row of the category it names.
pub open spec fn draws_on(rows: Seq<Row>, cost: Cost, i: int) -> bool {
    match cost {
        Cost::Resource { name, .. } => rows[i].name == name,
        Cost::Category { name, .. } => rows[i].category == name,
    }
}

/// Whether no row is drawn on by two of `costs`.
pub open spec fn costs_apart(rows: Seq<Row>, costs: Seq<Cost>) -> bool {
    forall|a: int, b: int, i: int|
        0 <= a < b < costs.len() && 0 <= i < rows.len() ==> !(#[trigger] draws_on(
            rows,
            costs[a],
            i,
        ) && #[trigger] draws_on(rows, costs[b], i))
}

/// `rows` with every quantity below nothing raised to nothing.
pub open spec fn positive_part(rows: Seq<Row>) -> Seq<Row> {
    Seq::new(
        rows.len(),
        |i: int|
            Row {
                quantity: if rows[i].quantity > 0 {
                    rows[i].quantity
                } else {
                    0
                },
                ..rows[i]
            },
    )
}

/// `rows` with 1 for every quantity above nothing and 0 for every other.
pub open spec fn positive_marks(rows: Seq<Row>) -> Seq<Row> {
    Seq::new(
        rows.len(),
        |i: int|
            Row {
                quantity: if rows[i].quantity > 0 {
                    1
                } else {
                    0
                },
                ..rows[i]
            },
    )
}

/// What the rows of the category `category` can give: the sum of their
/// quantities above nothing.
pub open spec fn givable(rows: Seq<Row>, category: Seq<char>) -> int {
    category_total(positive_part(rows), category)
}

/// The number of rows of the category `category` that hold more than
/// nothing.
pub open spec fn givers(rows: Seq<Row>, category: Seq<char>) -> int {
    category_total(positive_marks(rows), category)
}

proof fn lemma_total_bounds(rows: Seq<Row>, category: Seq<char>)
    ensures
        category_total(rows, category) <= givable(rows, category),
        0 <= givers(rows, category) <= rows.len(),
        0 <= givable(rows, category),
        givable(rows, category) > 0 ==> givers(rows, category) > 0,
    decreases rows.len(),
{
    if rows.len() > 0 {
        lemma_total_bounds(rows.drop_last(), category);
        assert(positive_part(rows).drop_last() =~= positive_part(rows.drop_last()));
        assert(positive_marks(rows).drop_last() =~= positive_marks(rows.drop_last()));
    }
}

proof fn lemma_givable_with_quantity(rows: Seq<Row>, i: int, quantity: int, category: Seq<char>)
    requires
        0 <= i < rows.len(),
        rows[i].category == category,
        rows[i].quantity > 0,
        0 <= quantity,
    ensures
        givable(with_quantity(rows, i, quantity), category) == givable(rows, category)
            - rows[i].quantity + quantity,
        quantity == 0 ==> givers(with_quantity(rows, i, quantity), category) == givers(
            rows,
            category,
        ) - 1,
        quantity > 0 ==> givers(with_quantity(rows, i, quantity), category) == givers(
            rows,
            category,
        ),
{
    let changed = with_quantity(rows, i, quantity);
    assert(positive_part(changed) =~= with_quantity(positive_part(rows), i, quantity));
    lemma_total_with_quantity(positive_part(rows), i, quantity, category);
    let mark: int = if quantity > 0 {
        1
    } else {
        0
    };
    assert(positive_marks(changed) =~= with_quantity(positive_marks(rows), i, mark));
    lemma_total_with_quantity(positive_marks(rows), i, mark, category);
}

/// Taking an amount from a category that can give it succeeds, takes the
/// amount exactly, and overdraws no row.
pub proof fn lemma_taken_from_category(
    rows: Seq<Row>,
    category: Seq<char>,
    amount: int,
    steps: nat,
)
    requires
        amount <= givable(rows, category),
        givers(rows, category) <= steps,
    ensures
        taken_from_category(rows, category, amount, steps) matches Some(after) && {
            &&& same_rows(rows, after)
            &&& category_total(after, category) == category_total(rows, category) - if amount > 0 {
                amount
            } else {
                0
            }
            &&& forall|i: int|
                0 <= i < rows.len() && rows[i].category != category ==> #[trigger] after[i]
                    == rows[i]
            &&& forall|i: int|
                0 <= i < rows.len() ==> (#[trigger] after[i]).quantity <= rows[i].quantity
            &&& forall|i: int|
                0 <= i < rows.len() && rows[i].quantity >= 0 ==> (#[trigger] after[i]).quantity
                    >= 0
            &&& forall|i: int|
                0 <= i < rows.len() && rows[i].quantity < 0 ==> (#[trigger] after[i]).quantity
                    == rows[i].quantity
        },
    decreases steps,
{
    lemma_total_bounds(rows, category);
    if amount <= 0 {
    } else {
        lemma_richest(rows, category);
        assert(steps > 0);
        match richest(rows, category) {
            Some(i) => {
                let part = if rows[i].quantity < amount {
                    rows[i].quantity
                } else {
                    amount
                };
                let next = with_quantity(rows, i, rows[i].quantity - part);
                lemma_givable_with_quantity(rows, i, rows[i].quantity - part, category);
                lemma_total_with_quantity(rows, i, rows[i].quantity - part, category);
                lemma_total_bounds(next, category);
                if part == amount {
                    assert(taken_from_category(next, category, 0, (steps - 1) as nat) == Some(
                        next,
                    ));
                } else {
                    lemma_taken_from_category(next, category, amount - part, (steps - 1) as nat);
                }
            },
            None => {
                assert(givable(rows, category) == 0) by {
                    lemma_none_richest_gives_nothing(rows, category);
                }
            },
        }
    }
}

proof fn lemma_none_richest_gives_nothing(rows: Seq<Row>, category: Seq<char>)
    requires
        forall|j: int|
            0 <= j < rows.len() && rows[j].category == category ==> (#[trigger] rows[j]).quantity
                <= 0,
    ensures
        givable(rows, category) == 0,
    decreases rows.len(),
{
    if rows.len() > 0 {
        let front = rows.drop_last();
        assert forall|j: int| 0 <= j < front.len() && front[j].category == category implies (
        #[trigger] front[j]).quantity <= 0 by {
            assert(front[j] == rows[j]);
        }
        lemma_none_richest_gives_nothing(front, category);
        assert(positive_part(rows).drop_last() =~= positive_part(front));
        assert(rows.last() == rows[rows.len() - 1]);
    }
}

/// Greedy deduction from a category, from the richest row down: where the
/// category's total covers the amount, the deduction succeeds; it takes the
/// amount exactly from the category's total, no row gives more than it has,
/// and rows of other categories stay as they are.
pub proof fn law_category_deduction(rows: Seq<Row>, category: Seq<char>, amount: int)
    requires
        0 <= amount <= category_total(rows, category),
    ensures
        deduct_category(rows, category, amount) matches Some(after) && {
            &&& same_rows(rows, after)
            &&& category_total(after, category) == category_total(rows, category) - amount
            &&& forall|i: int|
                0 <= i < rows.len() && rows[i].category != category ==> #[trigger] after[i]
                    == rows[i]
            &&& forall|i: int|
                0 <= i < rows.len() ==> (#[trigger] after[i]).quantity <= rows[i].quantity
            &&& forall|i: int|
                0 <= i < rows.len() && rows[i].quantity >= 0 ==> (#[trigger] after[i]).quantity
                    >= 0
        },
{
    lemma_total_bounds(rows, category);
    lemma_taken_from_category(rows, category, amount, rows.len());
}

/// Whether one of `costs` can draw on the row at `i`.
pub open spec fn drawn_on(rows: Seq<Row>, costs: Seq<Cost>, i: int) -> bool {
    exists|k: int| 0 <= k < costs.len() && #[trigger] draws_on(rows, costs[k], i)
}

proof fn lemma_total_frame(rows: Seq<Row>, after: Seq<Row>, category: Seq<char>)
    requires
        same_rows(rows, after),
        forall|i: int|
            0 <= i < rows.len() && rows[i].category == category ==> (#[trigger] after[i]).quantity
                == rows[i].quantity,
    ensures
        category_total(after, category) == category_total(rows, category),
    decreases rows.len(),
{
    if rows.len() > 0 {
        let front = rows.drop_last();
        let after_front = after.drop_last();
        assert forall|i: int| 0 <= i < front.len() implies (#[trigger] after_front[i]).name
            == front[i].name && after_front[i].category == front[i].category by {
            assert(after_front[i] == after[i]);
        }
        assert forall|i: int| 0 <= i < front.len() && front[i].category == category implies (
        #[trigger] after_front[i]).quantity == front[i].quantity by {
            assert(after_front[i] == after[i]);
        }
        lemma_total_frame(front, after_front, category);
        assert(after.last() == after[rows.len() - 1]);
    }
}

/// What rows hold towards a cost depends only on the rows that the cost can
/// draw on.
proof fn lemma_available_frame(rows: Seq<Row>, after: Seq<Row>, cost: Cost)
    requires
        same_rows(rows, after),
        forall|i: int|
            0 <= i < rows.len() && draws_on(rows, cost, i) ==> (#[trigger] after[i]).quantity
                == rows[i].quantity,
    ensures
        available_for(after, cost) == available_for(rows, cost),
{
    match cost {
        Cost::Resource { name, .. } => {
            assert(names(after) =~= names(rows));
            if names(rows).contains(name) {
                let at = names(rows).index_of(name);
                assert(names(rows)[at] == name);
                assert(draws_on(rows, cost, at));
            }
        },
        Cost::Category { name, .. } => {
            assert forall|i: int| 0 <= i < rows.len() && rows[i].category == name implies (
            #[trigger] after[i]).quantity == rows[i].quantity by {
                assert(draws_on(rows, cost, i));
            }
            lemma_total_frame(rows, after, name);
        },
    }
}

proof fn lemma_no_lacks(rows: Seq<Row>, costs: Seq<Cost>)
    requires
        lacks(rows, costs).len() == 0,
    ensures
        forall|k: int|
            0 <= k < costs.len() ==> available_for(rows, #[trigger] costs[k]) >= amount_of(
                costs[k],
            ),
    decreases costs.len(),
{
    if costs.len() > 0 {
        let front = costs.drop_last();
        lemma_no_lacks(rows, front);
        assert forall|k: int| 0 <= k < costs.len() implies available_for(
            rows,
            #[trigger] costs[k],
        ) >= amount_of(costs[k]) by {
            if k < front.len() {
                assert(front[k] == costs[k]);
            }
        }
    }
}

/// What paying one cost does where the rows cover it.
proof fn lemma_paid_one(rows: Seq<Row>, cost: Cost) -> (after: Seq<Row>)
    requires
        names(rows).no_duplicates(),
        forall|i: int| 0 <= i < rows.len() ==> holdable((#[trigger] rows[i]).quantity),
        available_for(rows, cost) >= amount_of(cost),
    ensures
        forall|rest: Seq<Cost>| #[trigger] paid(rows, seq![cost] + rest) == paid(after, rest),
        same_rows(rows, after),
        forall|i: int| 0 <= i < rows.len() ==> holdable((#[trigger] after[i]).quantity),
        forall|i: int| 0 <= i < rows.len() && !draws_on(rows, cost, i) ==> #[trigger] after[i]
            == rows[i],
        available_for(after, cost) == available_for(rows, cost) - amount_of(cost),
{
    let after = match cost {
        Cost::Resource { name, amount } => {
            match quantity_in(rows, name) {
                Some(quantity) => {
                    let at = names(rows).index_of(name);
                    assert(names(rows)[at] == name);
                    assert(holdable(rows[at].quantity));
                    let after = deduct_resource(rows, name, amount as int);
                    assert(names(after) =~= names(rows));
                    after
                },
                None => rows,
            }
        },
        Cost::Category { name, amount } => {
            lemma_total_bounds(rows, name);
            lemma_taken_from_category(rows, name, amount as int, rows.len());
            let after = deduct_category(rows, name, amount as int)->0;
            assert forall|i: int| 0 <= i < rows.len() implies holdable(
                (#[trigger] after[i]).quantity,
            ) by {
                assert(holdable(rows[i].quantity));
            }
            after
        },
    };
    assert forall|rest: Seq<Cost>| #[trigger] paid(rows, seq![cost] + rest) == paid(
        after,
        rest,
    ) by {
        assert((seq![cost] + rest).drop_first() =~= rest);
        assert((seq![cost] + rest)[0] == cost);
    }
    after
}

/// A payment meets each of its costs: where the ledger covers every cost and
/// no row is drawn on by two costs, paying succeeds; what the ledger holds
/// towards each cost falls by exactly the amount of that cost and stays at
/// nothing or above; and every row that no cost draws on stays as it is.
pub proof fn law_payment_meets_each_cost(rows: Seq<Row>, costs: Seq<Cost>)
    requires
        names(rows).no_duplicates(),
        forall|i: int| 0 <= i < rows.len() ==> holdable((#[trigger] rows[i]).quantity),
        costs_apart(rows, costs),
        lacks(rows, costs).len() == 0,
    ensures
        paid(rows, costs) matches Ok(after) && {
            &&& same_rows(rows, after)
            &&& forall|k: int|
                0 <= k < costs.len() ==> available_for(after, #[trigger] costs[k]) == available_for(
                    rows,
                    costs[k],
                ) - amount_of(costs[k]) && available_for(after, costs[k]) >= 0
            &&& forall|i: int|
                0 <= i < rows.len() && !drawn_on(rows, costs, i) ==> #[trigger] after[i] == rows[i]
        },
{
    lemma_no_lacks(rows, costs);
    lemma_payment(rows, costs);
}

proof fn lemma_payment(rows: Seq<Row>, costs: Seq<Cost>)
    requires
        names(rows).no_duplicates(),
        forall|i: int| 0 <= i < rows.len() ==> holdable((#[trigger] rows[i]).quantity),
        costs_apart(rows, costs),
        forall|k: int|
            0 <= k < costs.len() ==> available_for(rows, #[trigger] costs[k]) >= amount_of(
                costs[k],
            ),
    ensures
        paid(rows, costs) matches Ok(after) && {
            &&& same_rows(rows, after)
            &&& forall|k: int|
                0 <= k < costs.len() ==> available_for(after, #[trigger] costs[k]) == available_for(
                    rows,
                    costs[k],
                ) - amount_of(costs[k]) && available_for(after, costs[k]) >= 0
            &&& forall|i: int|
                0 <= i < rows.len() && !drawn_on(rows, costs, i) ==> #[trigger] after[i] == rows[i]
        },
    decreases costs.len(),
{
    if costs.len() == 0 {
    } else {
        let first = costs[0];
        let rest = costs.drop_first();
        assert(costs =~= seq![first] + rest);
        let next = lemma_paid_one(rows, first);
        assert(paid(rows, costs) == paid(next, rest));
        assert(names(next) =~= names(rows));
        assert forall|a: int, b: int, i: int|
            0 <= a < b < rest.len() && 0 <= i < next.len() implies !(#[trigger] draws_on(
            next,
            rest[a],
            i,
        ) && #[trigger] draws_on(next, rest[b], i)) by {
            assert(rest[a] == costs[a + 1]);
            assert(rest[b] == costs[b + 1]);
            assert(draws_on(next, rest[a], i) == draws_on(rows, costs[a + 1], i));
            assert(draws_on(next, rest[b], i) == draws_on(rows, costs[b + 1], i));
        }
        assert forall|k: int| 0 <= k < rest.len() implies available_for(
            next,
            #[trigger] rest[k],
        ) == available_for(rows, costs[k + 1]) by {
            assert(rest[k] == costs[k + 1]);
            assert forall|i: int| 0 <= i < rows.len() && draws_on(rows, rest[k], i) implies (
            #[trigger] next[i]).quantity == rows[i].quantity by {
                assert(!(draws_on(rows, costs[0], i) && draws_on(rows, costs[k + 1], i)));
            }
            lemma_available_frame(rows, next, rest[k]);
        }
        assert forall|k: int| 0 <= k < rest.len() implies available_for(
            next,
            #[trigger] rest[k],
        ) >= amount_of(rest[k]) by {
            assert(rest[k] == costs[k + 1]);
        }
        lemma_payment(next, rest);
        let after = paid(next, rest)->Ok_0;
        assert forall|i: int| 0 <= i < rows.len() && draws_on(next, first, i) implies (
        #[trigger] after[i]).quantity == next[i].quantity by {
            if drawn_on(next, rest, i) {
                let k = choose|k: int| 0 <= k < rest.len() && #[trigger] draws_on(next, rest[k], i);
                assert(rest[k] == costs[k + 1]);
                assert(draws_on(rows, costs[k + 1], i));
                assert(draws_on(rows, costs[0], i));
                assert(!(draws_on(rows, costs[0], i) && draws_on(rows, costs[k + 1], i)));
            }
        }
        lemma_available_frame(next, after, first);
        assert forall|k: int| 0 <= k < costs.len() implies available_for(
            after,
            #[trigger] costs[k],
        ) == available_for(rows, costs[k]) - amount_of(costs[k]) && available_for(
            after,
            costs[k],
        ) >= 0 by {
            if k > 0 {
                assert(rest[k - 1] == costs[k]);
            }
        }
        assert forall|i: int| 0 <= i < rows.len() && !drawn_on(rows, costs, i) implies #[trigger] after[i]
            == rows[i] by {
            assert(!draws_on(rows, costs[0], i));
            if drawn_on(next, rest, i) {
                let k = choose|k: int| 0 <= k < rest.len() && #[trigger] draws_on(next, rest[k], i);
                assert(rest[k] == costs[k + 1]);
                assert(draws_on(rows, costs[k + 1], i));
            }
        }
    }
}

/// Paying costs changes the quantities of rows that one of the costs draws
/// on, and nothing else.
pub proof fn lemma_paid_frame(rows: Seq<Row>, costs: Seq<Cost>)
    requires
        paid(rows, costs) is Ok,
    ensures
        paid(rows, costs) matches Ok(after) && {
            &&& same_rows(rows, after)
            &&& forall|i: int|
                0 <= i < rows.len() && !drawn_on(rows, costs, i) ==> #[trigger] after[i] == rows[i]
        },
    decreases costs.len(),
{
    if costs.len() > 0 {
        let first = costs[0];
        let rest = costs.drop_first();
        let next = paid_first(rows, first);
        lemma_paid_first(rows, first);
        lemma_paid_frame(next, rest);
        let after = paid(next, rest)->Ok_0;
        assert forall|i: int| 0 <= i < rows.len() implies (#[trigger] after[i]).name == rows[i].name
            && after[i].category == rows[i].category by {
            assert(next[i].name == rows[i].name);
        }
        assert forall|i: int| 0 <= i < rows.len() && !drawn_on(rows, costs, i) implies #[trigger] after[i]
            == rows[i] by {
            assert(!draws_on(rows, costs[0], i));
            assert(next[i] == rows[i]);
            if drawn_on(next, rest, i) {
                let k = choose|k: int| 0 <= k < rest.len() && #[trigger] draws_on(next, rest[k], i);
                assert(rest[k] == costs[k + 1]);
                assert(draws_on(rows, costs[k + 1], i));
            }
        }
    }
}

/// The rows after the one cost `cost` is paid, where it can be paid.
pub open spec fn paid_first(rows: Seq<Row>, cost: Cost) -> Seq<Row> {
    match cost {
        Cost::Resource { name, amount } => deduct_resource(rows, name, amount as int),
        Cost::Category { name, amount } => match deduct_category(rows, name, amount as int) {
            Some(next) => next,
            None => rows,
        },
    }
}

/// Paying one cost changes only rows that it draws on; and where costs can
/// be paid, the first is paid and then the others.
proof fn lemma_paid_first(rows: Seq<Row>, cost: Cost)
    ensures
        same_rows(rows, paid_first(rows, cost)),
        forall|i: int|
            0 <= i < rows.len() && !draws_on(rows, cost, i) ==> #[trigger] paid_first(
                rows,
                cost,
            )[i] == rows[i],
        forall|rest: Seq<Cost>| #[trigger]
            paid(rows, seq![cost] + rest) is Ok ==> paid(rows, seq![cost] + rest) == paid(
                paid_first(rows, cost),
                rest,
            ) && (cost matches Cost::Category { name, amount } ==> deduct_category(
                rows,
                name,
                amount as int,
            ) is Some),
        forall|costs: Seq<Cost>|
            costs.len() > 0 && costs[0] == cost && #[trigger] paid(rows, costs) is Ok ==> paid(
                rows,
                costs,
            ) == paid(paid_first(rows, cost), costs.drop_first()) && (cost matches Cost::Category {
                name,
                amount,
            } ==> deduct_category(rows, name, amount as int) is Some),
{
    let next = paid_first(rows, cost);
    match cost {
        Cost::Resource { name, amount } => {
            if names(rows).contains(name) {
                let at = names(rows).index_of(name);
                assert(names(rows)[at] == name);
            }
        },
        Cost::Category { name, amount } => {
            if deduct_category(rows, name, amount as int) is Some {
                lemma_taken_is_greedy(rows, name, amount as int, rows.len());
            }
        },
    }
    assert forall|rest: Seq<Cost>| #[trigger]
        paid(rows, seq![cost] + rest) is Ok implies paid(rows, seq![cost] + rest) == paid(
        next,
        rest,
    ) && (cost matches Cost::Category { name, amount } ==> deduct_category(
        rows,
        name,
        amount as int,
    ) is Some) by {
        assert((seq![cost] + rest).drop_first() =~= rest);
        assert((seq![cost] + rest)[0] == cost);
    }
}

/// Paying costs one after the other is paying the first of them and then,
/// from what is left, the others.
pub proof fn lemma_paid_concat(rows: Seq<Row>, first: Seq<Cost>, second: Seq<Cost>)
    ensures
        paid(rows, first + second) == match paid(rows, first) {
            Ok(between) => paid(between, second),
            Err(refusal) => Err(refusal),
        },
    decreases first.len(),
{
    if first.len() == 0 {
        assert(first + second =~= second);
    } else {
        let all = first + second;
        assert(all[0] == first[0]);
        assert(all.drop_first() =~= first.drop_first() + second);
        match first[0] {
            Cost::Resource { name, amount } => match quantity_in(rows, name) {
                Some(quantity) => {
                    if holdable(quantity - amount) {
                        lemma_paid_concat(
                            deduct_resource(rows, name, amount as int),
                            first.drop_first(),
                            second,
                        );
                    }
                },
                None => {
                    lemma_paid_concat(rows, first.drop_first(), second);
                },
            },
            Cost::Category { name, amount } => match deduct_category(rows, name, amount as int) {
                Some(next) => {
                    lemma_paid_concat(next, first.drop_first(), second);
                },
                None => {},
            },
        }
    }
}

/// Whether no row that the cost at `k` draws on is drawn on by another of
/// `costs`.
pub open spec fn stands_apart(rows: Seq<Row>, costs: Seq<Cost>, k: int) -> bool {
    forall|j: int, i: int|
        0 <= j < costs.len() && j != k && 0 <= i < rows.len() ==> !(#[trigger] draws_on(
            rows,
            costs[j],
            i,
        ) && #[trigger] draws_on(rows, costs[k], i))
}

/// A payment meets a cost that stands apart: where the costs were paid, the
/// ledger covered the cost at `k`, and no other cost draws on a row that
/// this cost draws on, what the ledger holds towards the cost fell by exactly
/// its amount and stays at nothing or above, and none of its rows that held
/// nothing or more is overdrawn; and where the cost names a category, the
/// rows of that category gave greedily, from the richest down. The other
/// costs may draw on one another's rows.
pub proof fn law_payment_meets_cost_standing_apart(rows: Seq<Row>, costs: Seq<Cost>, k: int)
    requires
        0 <= k < costs.len(),
        paid(rows, costs) is Ok,
        available_for(rows, costs[k]) >= amount_of(costs[k]),
        stands_apart(rows, costs, k),
    ensures
        paid(rows, costs) matches Ok(after) && {
            &&& same_rows(rows, after)
            &&& available_for(after, costs[k]) == available_for(rows, costs[k]) - amount_of(
                costs[k],
            )
            &&& available_for(after, costs[k]) >= 0
            &&& forall|i: int|
                0 <= i < rows.len() && draws_on(rows, costs[k], i) && rows[i].quantity >= 0
                    ==> (#[trigger] after[i]).quantity >= 0
            &&& costs[k] matches Cost::Category { name, .. } ==> greedy_within(rows, after, name)
        },
{
    let cost = costs[k];
    let before = costs.take(k);
    let behind = costs.skip(k + 1);
    assert(costs =~= before + (seq![cost] + behind));
    lemma_paid_concat(rows, before, seq![cost] + behind);
    let first = paid(rows, before)->Ok_0;
    lemma_paid_frame(rows, before);
    assert forall|i: int| 0 <= i < rows.len() && draws_on(rows, cost, i) implies #[trigger] first[i]
        == rows[i] by {
        if drawn_on(rows, before, i) {
            let j = choose|j: int| 0 <= j < before.len() && #[trigger] draws_on(rows, before[j], i);
            assert(before[j] == costs[j]);
            assert(!(draws_on(rows, costs[j], i) && draws_on(rows, costs[k], i)));
        }
    }
    lemma_available_frame(rows, first, cost);
    lemma_paid_first(first, cost);
    let second = paid_first(first, cost);
    assert(paid(first, seq![cost] + behind) == paid(second, behind));
    assert(available_for(second, cost) == available_for(first, cost) - amount_of(cost)
        && forall|i: int|
        0 <= i < rows.len() && first[i].quantity >= 0 ==> (#[trigger] second[i]).quantity >= 0) by {
        match cost {
            Cost::Resource { name, amount } => {
                assert(names(second) =~= names(first));
                if names(first).contains(name) {
                    let at = names(first).index_of(name);
                    assert(names(first)[at] == name);
                }
            },
            Cost::Category { name, amount } => {
                lemma_taken_is_greedy(first, name, amount as int, first.len());
            },
        }
    }
    lemma_paid_frame(second, behind);
    let after = paid(second, behind)->Ok_0;
    assert forall|i: int| 0 <= i < rows.len() && draws_on(second, cost, i) implies (
    #[trigger] after[i]).quantity == second[i].quantity by {
        assert(draws_on(rows, cost, i) == draws_on(second, cost, i));
        if drawn_on(second, behind, i) {
            let j = choose|j: int| 0 <= j < behind.len() && #[trigger] draws_on(second, behind[j], i);
            assert(behind[j] == costs[k + 1 + j]);
            assert(draws_on(rows, costs[k + 1 + j], i) == draws_on(second, behind[j], i));
            assert(!(draws_on(rows, costs[k + 1 + j], i) && draws_on(rows, costs[k], i)));
        }
    }
    lemma_available_frame(second, after, cost);
    assert forall|i: int|
        0 <= i < rows.len() && draws_on(rows, costs[k], i) && rows[i].quantity >= 0 implies (
    #[trigger] after[i]).quantity >= 0 by {
        assert(first[i] == rows[i]);
        assert(second[i].quantity >= 0);
        assert(draws_on(second, cost, i));
    }
    assert forall|i: int| 0 <= i < rows.len() implies (#[trigger] after[i]).name == rows[i].name
        && after[i].category == rows[i].category by {
        assert(first[i].name == rows[i].name);
        assert(second[i].name == first[i].name);
    }
    match cost {
        Cost::Category { name, amount } => {
            lemma_taken_is_greedy(first, name, amount as int, first.len());
            lemma_greedy_within(first, second, name);
            assert forall|i: int| 0 <= i < first.len() && first[i].category == name implies (
            #[trigger] rows[i]) == first[i] by {
                assert(draws_on(rows, cost, i));
            }
            assert forall|i: int| 0 <= i < first.len() && first[i].category == name implies (
            #[trigger] after[i]).quantity == second[i].quantity by {
                assert(draws_on(second, cost, i));
            }
            lemma_greedy_within_frame(first, second, rows, after, name);
        },
        _ => {},
    }
}

/// A payment overdraws no row: where the ledger covers every cost and no row
/// is drawn on by two costs, every row that held nothing or more holds
/// nothing or more after the payment.
pub proof fn law_payment_overdraws_no_row(rows: Seq<Row>, costs: Seq<Cost>)
    requires
        names(rows).no_duplicates(),
        forall|i: int| 0 <= i < rows.len() ==> holdable((#[trigger] rows[i]).quantity),
        costs_apart(rows, costs),
        lacks(rows, costs).len() == 0,
    ensures
        paid(rows, costs) matches Ok(after) && same_rows(rows, after) && forall|i: int|
            0 <= i < rows.len() && rows[i].quantity >= 0 ==> (#[trigger] after[i]).quantity >= 0,
{
    law_payment_meets_each_cost(rows, costs);
    lemma_no_lacks(rows, costs);
    let after = paid(rows, costs)->Ok_0;
    assert forall|i: int| 0 <= i < rows.len() && rows[i].quantity >= 0 implies (
    #[trigger] after[i]).quantity >= 0 by {
        if drawn_on(rows, costs, i) {
            let k = choose|k: int| 0 <= k < costs.len() && #[trigger] draws_on(rows, costs[k], i);
            lemma_apart_costs_stand_apart(rows, costs, k);
            law_payment_meets_cost_standing_apart(rows, costs, k);
        }
    }
}

/// Among costs of which no two draw on one row, each stands apart.
proof fn lemma_apart_costs_stand_apart(rows: Seq<Row>, costs: Seq<Cost>, k: int)
    requires
        costs_apart(rows, costs),
        0 <= k < costs.len(),
    ensures
        stands_apart(rows, costs, k),
{
    assert forall|j: int, i: int|
        0 <= j < costs.len() && j != k && 0 <= i < rows.len() implies !(#[trigger] draws_on(
        rows,
        costs[j],
        i,
    ) && #[trigger] draws_on(rows, costs[k], i)) by {
        if j < k {
            assert(!(draws_on(rows, costs[j], i) && draws_on(rows, costs[k], i)));
        } else {
            assert(!(draws_on(rows, costs[k], i) && draws_on(rows, costs[j], i)));
        }
    }
}

/// The costs of the next level of the building `building`.
pub open spec fn next_costs(
    assets: Map<Seq<char>, BuildingConfig>,
    levels: Map<Seq<char>, u32>,
    building: Seq<char>,
) -> Seq<Cost> {
    costs_of_rows(assets[building].upgrade_costs@, (levels[building] + 1) as u32)
}

/// An upgrade that succeeded was affordable: the level rose by one; what
/// the ledger holds towards each cost of the new level fell by exactly the
/// amount of that cost and stays at nothing or above; every row that no cost
/// draws on stays as it is; and no row that held nothing or more is
/// overdrawn. This holds where no row is drawn on by two of the costs.
pub proof fn law_upgrade_affordability(
    assets: Map<Seq<char>, BuildingConfig>,
    levels: Map<Seq<char>, u32>,
    rows: Seq<Row>,
    building: Seq<char>,
)
    requires
        names(rows).no_duplicates(),
        forall|i: int| 0 <= i < rows.len() ==> holdable((#[trigger] rows[i]).quantity),
        costs_apart(rows, next_costs(assets, levels, building)),
        upgraded(assets, levels, rows, building) is Ok,
    ensures
        upgraded(assets, levels, rows, building) matches Ok((level, after)) && {
            let costs = next_costs(assets, levels, building);
            &&& level == levels[building] + 1
            &&& same_rows(rows, after)
            &&& forall|k: int|
                0 <= k < costs.len() ==> available_for(after, #[trigger] costs[k]) == available_for(
                    rows,
                    costs[k],
                ) - amount_of(costs[k]) && available_for(after, costs[k]) >= 0
            &&& forall|i: int|
                0 <= i < rows.len() && !drawn_on(rows, costs, i) ==> #[trigger] after[i] == rows[i]
            &&& forall|i: int|
                0 <= i < rows.len() && rows[i].quantity >= 0 ==> (#[trigger] after[i]).quantity
                    >= 0
        },
{
    law_payment_meets_each_cost(rows, next_costs(assets, levels, building));
    law_payment_overdraws_no_row(rows, next_costs(assets, levels, building));
}

/// An upgrade that succeeded took each cost that stands apart: where no
/// other cost of the new level draws on a row that the cost at `k` draws on,
/// what the ledger holds towards that cost, the quantity of its resource or
/// the total of its category, fell by exactly its amount and stays at
/// nothing or above, and none of its rows that held nothing or more is
/// overdrawn; and where the cost names a category, the rows of that category
/// gave greedily, from the richest down.
pub proof fn law_upgrade_takes_cost_standing_apart(
    assets: Map<Seq<char>, BuildingConfig>,
    levels: Map<Seq<char>, u32>,
    rows: Seq<Row>,
    building: Seq<char>,
    k: int,
)
    requires
        upgraded(assets, levels, rows, building) is Ok,
        0 <= k < next_costs(assets, levels, building).len(),
        stands_apart(rows, next_costs(assets, levels, building), k),
    ensures
        upgraded(assets, levels, rows, building) matches Ok((level, after)) && {
            let cost = next_costs(assets, levels, building)[k];
            &&& same_rows(rows, after)
            &&& available_for(after, cost) == available_for(rows, cost) - amount_of(cost)
            &&& available_for(after, cost) >= 0
            &&& forall|i: int|
                0 <= i < rows.len() && draws_on(rows, cost, i) && rows[i].quantity >= 0
                    ==> (#[trigger] after[i]).quantity >= 0
            &&& cost matches Cost::Category { name, .. } ==> greedy_within(rows, after, name)
        },
{
    let costs = next_costs(assets, levels, building);
    lemma_no_lacks(rows, costs);
    law_payment_meets_cost_standing_apart(rows, costs, k);
}

/// An upgrade that the team cannot afford is refused: where the ledger
/// lacks something for a cost of the next level, the upgrade fails and names
/// what is lacking.
pub proof fn law_shortfall_refuses_upgrade(
    assets: Map<Seq<char>, BuildingConfig>,
    levels: Map<Seq<char>, u32>,
    rows: Seq<Row>,
    building: Seq<char>,
)
    requires
        assets.contains_key(building),
        levels.contains_key(building),
        levels[building] < assets[building].max_level,
        lacks(rows, next_costs(assets, levels, building)).len() > 0,
    ensures
        upgraded(assets, levels, rows, building) == Err::<(u32, Seq<Row>), Refusal>(
            Refusal::InsufficientResources(lacks(rows, next_costs(assets, levels, building))),
        ),
{
    lemma_lacks_within(rows, next_costs(assets, levels, building));
}

/// There are no more lacks than costs.
proof fn lemma_lacks_within(rows: Seq<Row>, costs: Seq<Cost>)
    ensures
        lacks(rows, costs).len() <= costs.len(),
    decreases costs.len(),
{
    if costs.len() > 0 {
        lemma_lacks_within(rows, costs.drop_last());
    }
}

} // verus!
