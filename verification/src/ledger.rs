//! The resources of one team: a ledger with one row for each resource name,
//! its category and its quantity.

use crate::strmap::StrMap;
use vstd::prelude::*;

verus! {

/// What a team holds of one resource.
#[derive(Debug, Clone)]
pub struct Holding {
    /// The category of the resource, fixed when the row came in.
    pub category: String,
    pub quantity: i64,
}

/// The resources of one team, one row for each resource name.
pub struct Ledger {
    pub holdings: StrMap<Holding>,
}

/// One row of a ledger.
pub ghost struct Row {
    pub name: Seq<char>,
    pub category: Seq<char>,
    pub quantity: int,
}

/// Whether a row can hold the quantity `quantity`.
pub open spec fn holdable(quantity: int) -> bool {
    i64::MIN <= quantity <= i64::MAX
}

/// The names of `rows`, in order.
pub open spec fn names(rows: Seq<Row>) -> Seq<Seq<char>> {
    Seq::new(rows.len(), |i: int| rows[i].name)
}

/// The quantity that `rows` hold of the resource `name`, if they have a row
/// for it.
pub open spec fn quantity_in(rows: Seq<Row>, name: Seq<char>) -> Option<int> {
    if names(rows).contains(name) {
        Some(rows[names(rows).index_of(name)].quantity)
    } else {
        None
    }
}

/// The sum of the quantities of the rows of `rows` in the category
/// `category`.
pub open spec fn category_total(rows: Seq<Row>, category: Seq<char>) -> int
    decreases rows.len(),
{
    if rows.len() == 0 {
        0
    } else {
        category_total(rows.drop_last(), category) + if rows.last().category == category {
            rows.last().quantity
        } else {
            0
        }
    }
}

/// `rows` with the quantity of the row at `i` set to `quantity`.
pub open spec fn with_quantity(rows: Seq<Row>, i: int, quantity: int) -> Seq<Row> {
    rows.update(i, Row { quantity, ..rows[i] })
}

/// The rows that the entries `entries` of a ledger make up.
pub open spec fn rows_of(entries: Seq<(Seq<char>, Holding)>) -> Seq<Row> {
    Seq::new(
        entries.len(),
        |i: int|
            Row {
                name: entries[i].0,
                category: entries[i].1.category@,
                quantity: entries[i].1.quantity as int,
            },
    )
}

impl View for Ledger {
    type V = Seq<Row>;

    open spec fn view(&self) -> Seq<Row> {
        rows_of(self.holdings.entries())
    }
}

/// Setting one quantity changes the total of the row's category by the
/// difference, and no other total.
pub proof fn lemma_total_with_quantity(rows: Seq<Row>, i: int, quantity: int, category: Seq<char>)
    requires
        0 <= i < rows.len(),
    ensures
        category_total(with_quantity(rows, i, quantity), category) == category_total(
            rows,
            category,
        ) + if rows[i].category == category {
            quantity - rows[i].quantity
        } else {
            0
        },
    decreases rows.len(),
{
    let changed = with_quantity(rows, i, quantity);
    if i == rows.len() - 1 {
        assert(changed.drop_last() =~= rows.drop_last());
    } else {
        assert(changed.drop_last() =~= with_quantity(rows.drop_last(), i, quantity));
        lemma_total_with_quantity(rows.drop_last(), i, quantity, category);
    }
}

impl Ledger {
    /// The ledger without rows.
    pub fn new() -> (ledger: Self)
        ensures
            ledger@ == Seq::<Row>::empty(),
    {
        let ledger = Ledger { holdings: StrMap::new() };
        assert(ledger@ =~= Seq::<Row>::empty());
        ledger
    }

    /// The number of rows. No two rows have the same name.
    pub fn len(&self) -> (n: usize)
        ensures
            n == self@.len(),
            names(self@).no_duplicates(),
    {
        let n = self.holdings.len();
        assert(names(self@) =~= self.holdings.keys());
        n
    }

    /// The name of the row at `i`.
    pub fn name_at(&self, i: usize) -> (name: &String)
        requires
            i < self@.len(),
        ensures
            name@ == self@[i as int].name,
    {
        self.holdings.key_at(i)
    }

    /// What the row at `i` holds.
    pub fn holding_at(&self, i: usize) -> (holding: &Holding)
        requires
            i < self@.len(),
        ensures
            holding.category@ == self@[i as int].category,
            holding.quantity == self@[i as int].quantity,
    {
        self.holdings.value_at(i)
    }

    /// The position of the row for the resource `name`.
    pub fn position(&self, name: &str) -> (r: Option<usize>)
        ensures
            names(self@).no_duplicates(),
            match r {
                Some(i) => i < self@.len() && self@[i as int].name == name@ && names(
                    self@,
                ).contains(name@) && names(self@).index_of(name@) == i,
                None => !names(self@).contains(name@),
            },
    {
        let n = self.len();
        let r = self.holdings.position(name);
        proof {
            assert(names(self@) =~= self.holdings.keys());
            if let Some(i) = r {
                assert(names(self@)[i as int] == name@);
                let j = names(self@).index_of(name@);
                assert(names(self@)[j] == name@);
            }
        }
        r
    }
}

/// The quantity that the team holds of the resource `item_name`, if it has a
/// row for it.
pub fn get_resource_quantity_by_name(ledger: &Ledger, item_name: &str) -> (r: Option<i64>)
    ensures
        match r {
            Some(quantity) => quantity_in(ledger@, item_name@) == Some(quantity as int),
            None => quantity_in(ledger@, item_name@) is None,
        },
{
    match ledger.position(item_name) {
        Some(i) => Some(ledger.holding_at(i).quantity),
        None => None,
    }
}

/// The sum of what the team holds in the category `category`; 0 where it
/// holds nothing of it.
pub fn get_resource_quantity_by_category(ledger: &Ledger, category: &str) -> (total: i128)
    ensures
        total == category_total(ledger@, category@),
{
    let wanted = category.to_owned();
    let n = ledger.len();
    let mut total: i128 = 0;
    let mut i: usize = 0;
    assert(ledger@.take(0) =~= Seq::<Row>::empty());
    while i < n
        invariant
            i <= n,
            n == ledger@.len(),
            wanted@ == category@,
            total == category_total(ledger@.take(i as int), category@),
            -(i as int) * 0x8000_0000_0000_0000 <= total <= (i as int) * 0x8000_0000_0000_0000,
        decreases n - i,
    {
        let holding = ledger.holding_at(i);
        assert(ledger@.take(i + 1).drop_last() =~= ledger@.take(i as int));
        assert(ledger@.take(i + 1).last() == ledger@[i as int]);
        assert((i as int + 1) * 0x8000_0000_0000_0000 <= 0xFFFF_FFFF_FFFF_FFFF
            * 0x8000_0000_0000_0000) by (nonlinear_arith)
            requires
                0 <= i as int + 1 <= 0xFFFF_FFFF_FFFF_FFFF,
        ;
        assert(-(i as int) * 0x8000_0000_0000_0000 - 0x8000_0000_0000_0000 == -(i as int + 1)
            * 0x8000_0000_0000_0000) by (nonlinear_arith);
        assert((i as int) * 0x8000_0000_0000_0000 + 0x8000_0000_0000_0000 == (i as int + 1)
            * 0x8000_0000_0000_0000) by (nonlinear_arith);
        if holding.category == wanted {
            total = total + holding.quantity as i128;
        }
        i += 1;
    }
    assert(ledger@.take(n as int) =~= ledger@);
    total
}

/// Sets the quantity of the resource `item_name` to `quantity`. A ledger
/// without a row for that resource stays as it is.
pub fn update_resource_quantity(ledger: &mut Ledger, item_name: &str, quantity: i64)
    ensures
        final(ledger)@ == match quantity_in(old(ledger)@, item_name@) {
            Some(_) => with_quantity(
                old(ledger)@,
                names(old(ledger)@).index_of(item_name@),
                quantity as int,
            ),
            None => old(ledger)@,
        },
{
    match ledger.position(item_name) {
        Some(i) => {
            let category = ledger.holding_at(i).category.clone();
            ledger.holdings.set_at(i, Holding { category, quantity });
            assert(ledger@ =~= with_quantity(old(ledger)@, i as int, quantity as int));
        },
        None => {},
    }
}

/// Adds a row for the resource `item_name` in the category `category` with
/// the quantity `quantity`, and says whether it did: a ledger that has a row
/// for that resource already stays as it is.
pub fn insert_new_resource(
    ledger: &mut Ledger,
    item_name: &str,
    category: &str,
    quantity: i64,
) -> (added: bool)
    ensures
        added == quantity_in(old(ledger)@, item_name@) is None,
        final(ledger)@ == if added {
            old(ledger)@.push(
                Row { name: item_name@, category: category@, quantity: quantity as int },
            )
        } else {
            old(ledger)@
        },
{
    match ledger.position(item_name) {
        Some(_) => false,
        None => {
            assert(!old(ledger).holdings@.contains_key(item_name@)) by {
                assert(names(old(ledger)@) =~= old(ledger).holdings.keys());
            }
            ledger.holdings.insert(
                item_name.to_owned(),
                Holding { category: category.to_owned(), quantity },
            );
            assert(ledger@ =~= old(ledger)@.push(
                Row { name: item_name@, category: category@, quantity: quantity as int },
            ));
            true
        },
    }
}

} // verus!
