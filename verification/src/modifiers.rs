//! What a team's buildings add to its yields: for each category of
//! resources a multiplier and a flat bonus.

use crate::team::Team;
use vstd::prelude::*;

verus! {

/// A multiplier: a ratio of two whole numbers, the second above 0.
#[derive(Debug, Clone, Copy)]
pub struct Multiplier {
    numerator: u32,
    denominator: u32,
}

impl Multiplier {
    #[verifier::type_invariant]
    spec fn divides(self) -> bool {
        self.denominator > 0
    }

    /// The two numbers of the ratio.
    pub closed spec fn ratio(&self) -> (u32, u32) {
        (self.numerator, self.denominator)
    }

    /// The ratio of `numerator` to `denominator`; there is none with the
    /// denominator 0.
    pub fn new(numerator: u32, denominator: u32) -> (r: Option<Multiplier>)
        ensures
            r is Some <==> denominator > 0,
            r matches Some(m) ==> m.ratio() == (numerator, denominator),
    {
        if denominator == 0 {
            None
        } else {
            Some(Multiplier { numerator, denominator })
        }
    }

    /// The multiplier that changes nothing.
    pub fn one() -> (m: Multiplier)
        ensures
            m.ratio() == (1u32, 1u32),
    {
        Multiplier { numerator: 1, denominator: 1 }
    }

    /// The first number of the ratio.
    pub fn numerator(&self) -> (n: u32)
        ensures
            n == self.ratio().0,
    {
        self.numerator
    }

    /// The second number of the ratio, which is above 0.
    pub fn denominator(&self) -> (d: u32)
        ensures
            d == self.ratio().1,
            d > 0,
    {
        proof {
            use_type_invariant(self);
        }
        self.denominator
    }
}

/// One row of the table of modifiers: what the building `building` at the
/// level `level` gives to the category `category`.
#[derive(Debug, Clone)]
pub struct ModifierRow {
    pub building: String,
    pub level: u32,
    pub category: String,
    pub multiplier: Multiplier,
    pub flat_bonus: i32,
}

/// The table of modifiers.
#[derive(Debug, Clone)]
pub struct ModifierTable {
    pub rows: Vec<ModifierRow>,
}

/// Whether `row` speaks of the category `category` and of a building that
/// stands at the row's level in `levels`.
pub open spec fn applies(row: ModifierRow, levels: Map<Seq<char>, u32>, category: Seq<char>) -> bool {
    levels.contains_key(row.building@) && levels[row.building@] == row.level && row.category@
        == category
}

/// Whether the ratio `a` is greater than the ratio `b`.
pub open spec fn exceeds(a: (u32, u32), b: (u32, u32)) -> bool {
    a.0 * b.1 > b.0 * a.1
}

/// The greatest multiplier among the rows of `rows` that apply; of equal
/// ones the first.
pub open spec fn best_multiplier(
    rows: Seq<ModifierRow>,
    levels: Map<Seq<char>, u32>,
    category: Seq<char>,
) -> Option<(u32, u32)>
    decreases rows.len(),
{
    if rows.len() == 0 {
        None
    } else {
        let before = best_multiplier(rows.drop_last(), levels, category);
        if applies(rows.last(), levels, category) {
            match before {
                Some(best) => if exceeds(rows.last().multiplier.ratio(), best) {
                    Some(rows.last().multiplier.ratio())
                } else {
                    before
                },
                None => Some(rows.last().multiplier.ratio()),
            }
        } else {
            before
        }
    }
}

/// The greatest flat bonus among the rows of `rows` that apply.
pub open spec fn best_bonus(
    rows: Seq<ModifierRow>,
    levels: Map<Seq<char>, u32>,
    category: Seq<char>,
) -> Option<i32>
    decreases rows.len(),
{
    if rows.len() == 0 {
        None
    } else {
        let before = best_bonus(rows.drop_last(), levels, category);
        if applies(rows.last(), levels, category) {
            match before {
                Some(best) => if rows.last().flat_bonus > best {
                    Some(rows.last().flat_bonus)
                } else {
                    before
                },
                None => Some(rows.last().flat_bonus),
            }
        } else {
            before
        }
    }
}

/// The multiplier of a team with the building levels `levels` for the
/// category `category`: the greatest that applies, and 1 where none does.
pub open spec fn team_multiplier(
    rows: Seq<ModifierRow>,
    levels: Map<Seq<char>, u32>,
    category: Seq<char>,
) -> (u32, u32) {
    match best_multiplier(rows, levels, category) {
        Some(best) => best,
        None => (1u32, 1u32),
    }
}

/// The flat bonus of a team with the building levels `levels` for the
/// category `category`: the greatest that applies, and 0 where none does.
pub open spec fn team_bonus(
    rows: Seq<ModifierRow>,
    levels: Map<Seq<char>, u32>,
    category: Seq<char>,
) -> i32 {
    match best_bonus(rows, levels, category) {
        Some(best) => best,
        None => 0,
    }
}

/// The quantity that `base` becomes under the multiplier `ratio` and the
/// flat bonus `bonus`: the product with the multiplier, rounded down, and
/// then the bonus.
pub open spec fn scaled(base: u32, ratio: (u32, u32), bonus: i32) -> int {
    (base * ratio.0) / (ratio.1 as int) + bonus
}

/// The quantity that `base` becomes for a team with the building levels
/// `levels` in the category `category`.
pub open spec fn resource_total(
    rows: Seq<ModifierRow>,
    base: u32,
    levels: Map<Seq<char>, u32>,
    category: Seq<char>,
) -> int {
    scaled(base, team_multiplier(rows, levels, category), team_bonus(rows, levels, category))
}

/// The product of `a` and `b`.
fn product(a: u32, b: u32) -> (p: u64)
    ensures
        p == a * b,
{
    assert(a * b <= 0xFFFF_FFFF * 0xFFFF_FFFF) by (nonlinear_arith)
        requires
            0 <= a <= 0xFFFF_FFFF,
            0 <= b <= 0xFFFF_FFFF,
    ;
    a as u64 * b as u64
}

/// Whether `row` applies to `team` and the category `category`.
fn row_applies(row: &ModifierRow, team: &Team, category: &String) -> (r: bool)
    ensures
        r == applies(*row, team.buildings@, category@),
{
    match team.buildings.get(row.building.as_str()) {
        Some(level) => *level == row.level && row.category == *category,
        None => false,
    }
}

/// The multiplier of `team` for the category `resource_category`.
pub fn get_team_resource_multiplier(
    table: &ModifierTable,
    team: &Team,
    resource_category: &str,
) -> (m: Multiplier)
    ensures
        m.ratio() == team_multiplier(table.rows@, team.buildings@, resource_category@),
{
    let category = resource_category.to_owned();
    let mut best: Option<Multiplier> = None;
    let mut i: usize = 0;
    assert(table.rows@.take(0) =~= Seq::<ModifierRow>::empty());
    while i < table.rows.len()
        invariant
            i <= table.rows.len(),
            category@ == resource_category@,
            match best {
                Some(m) => best_multiplier(
                    table.rows@.take(i as int),
                    team.buildings@,
                    resource_category@,
                ) == Some(m.ratio()),
                None => best_multiplier(
                    table.rows@.take(i as int),
                    team.buildings@,
                    resource_category@,
                ) is None,
            },
        decreases table.rows.len() - i,
    {
        assert(table.rows@.take(i + 1).drop_last() =~= table.rows@.take(i as int));
        let row = &table.rows[i];
        if row_applies(row, team, &category) {
            match best {
                Some(m) => {
                    let left = product(row.multiplier.numerator(), m.denominator());
                    let right = product(m.numerator(), row.multiplier.denominator());
                    if left > right {
                        best = Some(row.multiplier);
                    }
                },
                None => {
                    best = Some(row.multiplier);
                },
            }
        }
        i += 1;
    }
    assert(table.rows@.take(table.rows@.len() as int) =~= table.rows@);
    match best {
        Some(m) => m,
        None => Multiplier::one(),
    }
}

/// The flat bonus of `team` for the category `resource_category`.
pub fn get_team_resource_flat_bonus(
    table: &ModifierTable,
    team: &Team,
    resource_category: &str,
) -> (bonus: i32)
    ensures
        bonus == team_bonus(table.rows@, team.buildings@, resource_category@),
{
    let category = resource_category.to_owned();
    let mut best: Option<i32> = None;
    let mut i: usize = 0;
    assert(table.rows@.take(0) =~= Seq::<ModifierRow>::empty());
    while i < table.rows.len()
        invariant
            i <= table.rows.len(),
            category@ == resource_category@,
            best == best_bonus(table.rows@.take(i as int), team.buildings@, resource_category@),
        decreases table.rows.len() - i,
    {
        assert(table.rows@.take(i + 1).drop_last() =~= table.rows@.take(i as int));
        let row = &table.rows[i];
        if row_applies(row, team, &category) {
            match best {
                Some(b) => {
                    if row.flat_bonus > b {
                        best = Some(row.flat_bonus);
                    }
                },
                None => {
                    best = Some(row.flat_bonus);
                },
            }
        }
        i += 1;
    }
    assert(table.rows@.take(table.rows@.len() as int) =~= table.rows@);
    match best {
        Some(b) => b,
        None => 0,
    }
}

/// The quantity that `base` becomes under `multiplier` and `flat_bonus`.
pub fn scale(base: u32, multiplier: Multiplier, flat_bonus: i32) -> (total: i128)
    ensures
        total == scaled(base, multiplier.ratio(), flat_bonus),
{
    let whole: u64 = product(base, multiplier.numerator()) / multiplier.denominator() as u64;
    whole as i128 + flat_bonus as i128
}

/// The quantity that `base_amount` becomes for `team` in the category
/// `resource_category`: the multiplier first, rounded down, then the bonus.
pub fn calculate_resource_total(
    table: &ModifierTable,
    base_amount: u32,
    team: &Team,
    resource_category: &str,
) -> (total: i128)
    ensures
        total == resource_total(table.rows@, base_amount, team.buildings@, resource_category@),
{
    let multiplier = get_team_resource_multiplier(table, team, resource_category);
    let flat_bonus = get_team_resource_flat_bonus(table, team, resource_category);
    scale(base_amount, multiplier, flat_bonus)
}

} // verus!
