//! Upgrading and downgrading the buildings of a team, paid from its ledger.

use crate::buildings::{
    cost_amount, costs_of_rows, BuildingConfig, Cost, TownConfig, UpgradeCost,
};
use crate::ledger::{
    category_total, get_resource_quantity_by_category, get_resource_quantity_by_name,
    holdable, names, quantity_in, with_quantity, Holding, Ledger, Row,
};
use crate::team::{levels_in_bounds, Team};
use crate::text::{lowercase, to_lowercase};
use vstd::prelude::*;

verus! {

/// What a team lacks for one cost: the cost, and what the team has towards it.
#[derive(Debug, Clone)]
pub struct Shortfall {
    pub cost: UpgradeCost,
    pub available: i128,
}

/// What a `Shortfall` stands for.
pub ghost struct Lack {
    pub cost: Cost,
    pub available: int,
}

impl View for Shortfall {
    type V = Lack;

    open spec fn view(&self) -> Lack {
        Lack { cost: self.cost@, available: self.available as int }
    }
}

impl DeepView for Shortfall {
    type V = Lack;

    open spec fn deep_view(&self) -> Lack {
        self@
    }
}

/// Why a building was not upgraded or downgraded.
#[derive(Debug, Clone)]
pub enum UpgradeError {
    /// The catalogue has no building of that type.
    UnknownBuilding,
    /// The team has no building of that type.
    BuildingMissing,
    /// The building stands at its highest level.
    AlreadyMaxed,
    /// The building stands at its starting level.
    AlreadyAtMinimum,
    /// The catalogue states no cost for the next level.
    NoCostDefined,
    /// The team lacks resources: what it lacks, for each cost it cannot meet.
    InsufficientResources(Vec<Shortfall>),
    /// The resources of the category were spent on an earlier cost.
    CategoryDeductionFailed(String),
    /// A quantity would fall below what a row can hold.
    LedgerLimit,
}

/// What an `UpgradeError` stands for.
pub ghost enum Refusal {
    UnknownBuilding,
    BuildingMissing,
    AlreadyMaxed,
    AlreadyAtMinimum,
    NoCostDefined,
    InsufficientResources(Seq<Lack>),
    CategoryDeductionFailed(Seq<char>),
    LedgerLimit,
}

impl View for UpgradeError {
    type V = Refusal;

    open spec fn view(&self) -> Refusal {
        match *self {
            UpgradeError::UnknownBuilding => Refusal::UnknownBuilding,
            UpgradeError::BuildingMissing => Refusal::BuildingMissing,
            UpgradeError::AlreadyMaxed => Refusal::AlreadyMaxed,
            UpgradeError::AlreadyAtMinimum => Refusal::AlreadyAtMinimum,
            UpgradeError::NoCostDefined => Refusal::NoCostDefined,
            UpgradeError::InsufficientResources(lacks) => Refusal::InsufficientResources(
                lacks.deep_view(),
            ),
            UpgradeError::CategoryDeductionFailed(category) => Refusal::CategoryDeductionFailed(
                category@,
            ),
            UpgradeError::LedgerLimit => Refusal::LedgerLimit,
        }
    }
}

/// A building's change of level: the building type, the new level, and the
/// costs that were paid for it.
#[derive(Debug, Clone)]
pub struct UpgradeOutcome {
    pub building: String,
    pub level: u32,
    pub costs: Vec<UpgradeCost>,
}

// ---------------------------------------------------------------------------
// What an upgrade costs and does
// ---------------------------------------------------------------------------

/// The amount that `cost` asks for.
pub open spec fn amount_of(cost: Cost) -> int {
    cost_amount(cost) as int
}

/// What `rows` hold towards `cost`: the quantity of the named resource, 0
/// where there is no row for it; or the total of the named category.
pub open spec fn available_for(rows: Seq<Row>, cost: Cost) -> int {
    match cost {
        Cost::Resource { name, .. } => match quantity_in(rows, name) {
            Some(quantity) => quantity,
            None => 0,
        },
        Cost::Category { name, .. } => category_total(rows, name),
    }
}

/// What `rows` lack for `costs`: one entry for each cost that asks for more
/// than `rows` hold towards it, in the order of the costs.
pub open spec fn lacks(rows: Seq<Row>, costs: Seq<Cost>) -> Seq<Lack>
    decreases costs.len(),
{
    if costs.len() == 0 {
        Seq::empty()
    } else {
        let cost = costs.last();
        if available_for(rows, cost) < amount_of(cost) {
            lacks(rows, costs.drop_last()).push(
                Lack { cost, available: available_for(rows, cost) },
            )
        } else {
            lacks(rows, costs.drop_last())
        }
    }
}

/// The row of the category `category` that holds most, among those that hold
/// more than nothing; of rows that hold the same, the first.
pub open spec fn richest(rows: Seq<Row>, category: Seq<char>) -> Option<int>
    decreases rows.len(),
{
    if rows.len() == 0 {
        None
    } else {
        let last = rows.len() - 1;
        match richest(rows.drop_last(), category) {
            Some(i) => if rows[last].category == category && rows[last].quantity
                > rows[i].quantity {
                Some(last)
            } else {
                Some(i)
            },
            None => if rows[last].category == category && rows[last].quantity > 0 {
                Some(last)
            } else {
                None
            },
        }
    }
}

/// `rows` after `amount` is taken from the category `category` in at most
/// `steps` steps, each of which takes what it can from the richest row; or
/// nothing where the rows of the category cannot give that much.
pub open spec fn taken_from_category(
    rows: Seq<Row>,
    category: Seq<char>,
    amount: int,
    steps: nat,
) -> Option<Seq<Row>>
    decreases steps,
{
    if amount <= 0 {
        Some(rows)
    } else if steps == 0 {
        None
    } else {
        match richest(rows, category) {
            Some(i) => {
                let part = if rows[i].quantity < amount {
                    rows[i].quantity
                } else {
                    amount
                };
                taken_from_category(
                    with_quantity(rows, i, rows[i].quantity - part),
                    category,
                    amount - part,
                    (steps - 1) as nat,
                )
            },
            None => None,
        }
    }
}

/// `rows` after `amount` is taken from the category `category`, from the
/// richest row down: each row gives what it has until the amount is met, and
/// no row gives more than it has.
pub open spec fn deduct_category(rows: Seq<Row>, category: Seq<char>, amount: int) -> Option<
    Seq<Row>,
> {
    taken_from_category(rows, category, amount, rows.len())
}

/// `rows` after `amount` is taken from the resource `name`; a ledger without
/// a row for it stays as it is.
pub open spec fn deduct_resource(rows: Seq<Row>, name: Seq<char>, amount: int) -> Seq<Row> {
    match quantity_in(rows, name) {
        Some(quantity) => with_quantity(rows, names(rows).index_of(name), quantity - amount),
        None => rows,
    }
}

/// `rows` after `costs` are paid one after the other, or why they cannot be.
pub open spec fn paid(rows: Seq<Row>, costs: Seq<Cost>) -> Result<Seq<Row>, Refusal>
    decreases costs.len(),
{
    if costs.len() == 0 {
        Ok(rows)
    } else {
        match costs[0] {
            Cost::Resource { name, amount } => match quantity_in(rows, name) {
                Some(quantity) => if holdable(quantity - amount) {
                    paid(deduct_resource(rows, name, amount as int), costs.drop_first())
                } else {
                    Err(Refusal::LedgerLimit)
                },
                None => paid(rows, costs.drop_first()),
            },
            Cost::Category { name, amount } => match deduct_category(rows, name, amount as int) {
                Some(next) => paid(next, costs.drop_first()),
                None => Err(Refusal::CategoryDeductionFailed(name)),
            },
        }
    }
}

/// What upgrading the building `building` does to a team with the building
/// levels `levels` and the ledger `rows`: the new level and the new ledger,
/// or why there is no upgrade.
///
/// The building must be in the catalogue and in the team, and below its
/// highest level. The costs are those of the next level; all of them are
/// checked against the ledger as it stands before any is paid.
pub open spec fn upgraded(
    assets: Map<Seq<char>, BuildingConfig>,
    levels: Map<Seq<char>, u32>,
    rows: Seq<Row>,
    building: Seq<char>,
) -> Result<(u32, Seq<Row>), Refusal> {
    if !assets.contains_key(building) {
        Err(Refusal::UnknownBuilding)
    } else if !levels.contains_key(building) {
        Err(Refusal::BuildingMissing)
    } else if levels[building] >= assets[building].max_level {
        Err(Refusal::AlreadyMaxed)
    } else {
        let level = (levels[building] + 1) as u32;
        let costs = costs_of_rows(assets[building].upgrade_costs@, level);
        if costs.len() == 0 {
            Err(Refusal::NoCostDefined)
        } else if lacks(rows, costs).len() > 0 {
            Err(Refusal::InsufficientResources(lacks(rows, costs)))
        } else {
            match paid(rows, costs) {
                Ok(next) => Ok((level, next)),
                Err(refusal) => Err(refusal),
            }
        }
    }
}

/// The level that upgrading the building `building` without payment gives.
pub open spec fn force_upgraded(
    assets: Map<Seq<char>, BuildingConfig>,
    levels: Map<Seq<char>, u32>,
    building: Seq<char>,
) -> Result<u32, Refusal> {
    if !assets.contains_key(building) {
        Err(Refusal::UnknownBuilding)
    } else if !levels.contains_key(building) {
        Err(Refusal::BuildingMissing)
    } else if levels[building] >= assets[building].max_level {
        Err(Refusal::AlreadyMaxed)
    } else {
        Ok((levels[building] + 1) as u32)
    }
}

/// The level that downgrading the building `building` gives.
pub open spec fn downgraded(
    assets: Map<Seq<char>, BuildingConfig>,
    levels: Map<Seq<char>, u32>,
    building: Seq<char>,
) -> Result<u32, Refusal> {
    if !assets.contains_key(building) {
        Err(Refusal::UnknownBuilding)
    } else if !levels.contains_key(building) {
        Err(Refusal::BuildingMissing)
    } else if levels[building] <= assets[building].starting_level {
        Err(Refusal::AlreadyAtMinimum)
    } else {
        Ok((levels[building] - 1) as u32)
    }
}

/// The rows `rows` with the quantities `quantities` in place of their own.
pub open spec fn held(rows: Seq<Row>, quantities: Seq<i64>) -> Seq<Row> {
    Seq::new(rows.len(), |i: int| Row { quantity: quantities[i] as int, ..rows[i] })
}

// ---------------------------------------------------------------------------
// Facts
// ---------------------------------------------------------------------------

/// The richest row is a row of the category that holds more than nothing,
/// and no row of the category holds more.
pub proof fn lemma_richest(rows: Seq<Row>, category: Seq<char>)
    ensures
        match richest(rows, category) {
            Some(i) => {
                &&& 0 <= i < rows.len()
                &&& rows[i].category == category
                &&& rows[i].quantity > 0
                &&& forall|j: int|
                    0 <= j < rows.len() && rows[j].category == category ==> (#[trigger] rows[j]).quantity
                        <= rows[i].quantity
                &&& forall|j: int|
                    0 <= j < i && rows[j].category == category ==> (#[trigger] rows[j]).quantity
                        < rows[i].quantity
            },
            None => forall|j: int|
                0 <= j < rows.len() && rows[j].category == category ==> (#[trigger] rows[j]).quantity
                    <= 0,
        },
    decreases rows.len(),
{
    if rows.len() > 0 {
        lemma_richest(rows.drop_last(), category);
        let front = rows.drop_last();
        assert forall|j: int| 0 <= j < front.len() implies front[j] == rows[j] by {}
    }
}

// ---------------------------------------------------------------------------
// Executable
// ---------------------------------------------------------------------------

/// A copy of `cost`.
pub fn clone_cost(cost: &UpgradeCost) -> (copy: UpgradeCost)
    ensures
        copy@ == cost@,
{
    match cost {
        UpgradeCost::Resource(name, amount) => UpgradeCost::Resource(name.clone(), *amount),
        UpgradeCost::Category(name, amount) => UpgradeCost::Category(name.clone(), *amount),
    }
}

/// What the ledger holds towards `cost`.
pub fn available(ledger: &Ledger, cost: &UpgradeCost) -> (r: i128)
    ensures
        r == available_for(ledger@, cost@),
{
    match cost {
        UpgradeCost::Resource(name, _) => match get_resource_quantity_by_name(
            ledger,
            name.as_str(),
        ) {
            Some(quantity) => quantity as i128,
            None => 0,
        },
        UpgradeCost::Category(name, _) => get_resource_quantity_by_category(ledger, name.as_str()),
    }
}

/// The amount that `cost` asks for.
pub fn asked(cost: &UpgradeCost) -> (r: u32)
    ensures
        r == amount_of(cost@),
{
    match cost {
        UpgradeCost::Resource(_, amount) => *amount,
        UpgradeCost::Category(_, amount) => *amount,
    }
}

/// What the ledger lacks for `costs`.
pub fn shortfalls(ledger: &Ledger, costs: &Vec<UpgradeCost>) -> (r: Vec<Shortfall>)
    ensures
        r.deep_view() == lacks(ledger@, costs.deep_view()),
{
    let mut r: Vec<Shortfall> = Vec::new();
    let mut i: usize = 0;
    assert(costs.deep_view().take(0) =~= Seq::<Cost>::empty());
    assert(r.deep_view() =~= Seq::<Lack>::empty());
    while i < costs.len()
        invariant
            i <= costs.len(),
            r.deep_view() == lacks(ledger@, costs.deep_view().take(i as int)),
        decreases costs.len() - i,
    {
        let ghost upto = costs.deep_view().take(i + 1);
        assert(upto.drop_last() =~= costs.deep_view().take(i as int));
        assert(upto.last() == costs[i as int]@);
        let has = available(ledger, &costs[i]);
        if has < asked(&costs[i]) as i128 {
            let ghost before = r.deep_view();
            let lack = Shortfall { cost: clone_cost(&costs[i]), available: has };
            r.push(lack);
            assert(r.deep_view() =~= before.push(lack@));
        }
        i += 1;
    }
    assert(costs.deep_view().take(costs.len() as int) =~= costs.deep_view());
    r
}

/// The richest row of the category `category`, with `work` as the
/// quantities.
fn richest_row(ledger: &Ledger, work: &Vec<i64>, category: &String) -> (r: Option<usize>)
    requires
        work.len() == ledger@.len(),
    ensures
        match r {
            Some(i) => richest(held(ledger@, work@), category@) == Some(i as int),
            None => richest(held(ledger@, work@), category@) is None,
        },
{
    let n = work.len();
    let ghost rows = held(ledger@, work@);
    let mut best: Option<usize> = None;
    let mut j: usize = 0;
    assert(rows.take(0) =~= Seq::<Row>::empty());
    while j < n
        invariant
            j <= n,
            n == work.len(),
            n == ledger@.len(),
            rows == held(ledger@, work@),
            match best {
                Some(i) => i < j && richest(rows.take(j as int), category@) == Some(i as int),
                None => richest(rows.take(j as int), category@) is None,
            },
        decreases n - j,
    {
        assert(rows.take(j + 1).drop_last() =~= rows.take(j as int));
        let in_category = ledger.holding_at(j).category == *category;
        match best {
            Some(i) => {
                if in_category && work[j] > work[i] {
                    best = Some(j);
                }
            },
            None => {
                if in_category && work[j] > 0 {
                    best = Some(j);
                }
            },
        }
        j += 1;
    }
    assert(rows.take(n as int) =~= rows);
    best
}

/// Takes `amount` from the category `category`, from the richest row down,
/// with `work` as the quantities; says whether the rows could give it.
fn take_from_category(
    ledger: &Ledger,
    work: &mut Vec<i64>,
    category: &String,
    amount: u32,
) -> (met: bool)
    requires
        old(work).len() == ledger@.len(),
    ensures
        final(work).len() == old(work).len(),
        match deduct_category(held(ledger@, old(work)@), category@, amount as int) {
            Some(rows) => met && held(ledger@, final(work)@) == rows,
            None => !met,
        },
{
    let n = work.len();
    let mut remaining: i64 = amount as i64;
    let mut steps: usize = n;
    assert(held(ledger@, work@).len() == n);
    loop
        invariant
            work.len() == n,
            n == old(work).len(),
            n == ledger@.len(),
            steps <= n,
            0 <= remaining,
            deduct_category(held(ledger@, old(work)@), category@, amount as int)
                == taken_from_category(
                held(ledger@, work@),
                category@,
                remaining as int,
                steps as nat,
            ),
        decreases steps,
    {
        if remaining == 0 {
            return true;
        }
        if steps == 0 {
            return false;
        }
        let ghost rows = held(ledger@, work@);
        proof {
            lemma_richest(rows, category@);
        }
        match richest_row(ledger, work, category) {
            Some(i) => {
                let part: i64 = if work[i] < remaining {
                    work[i]
                } else {
                    remaining
                };
                let left = work[i] - part;
                work.set(i, left);
                assert(held(ledger@, work@) =~= with_quantity(rows, i as int, left as int));
                remaining = remaining - part;
                steps = steps - 1;
            },
            None => {
                return false;
            },
        }
    }
}

/// Pays `costs` one after the other from the quantities of the ledger, and
/// gives the quantities that are left.
pub fn pay(ledger: &Ledger, costs: &Vec<UpgradeCost>) -> (r: Result<Vec<i64>, UpgradeError>)
    ensures
        match r {
            Ok(quantities) => quantities.len() == ledger@.len() && paid(
                ledger@,
                costs.deep_view(),
            ) == Ok::<Seq<Row>, Refusal>(held(ledger@, quantities@)),
            Err(e) => paid(ledger@, costs.deep_view()) == Err::<Seq<Row>, Refusal>(e@),
        },
{
    let n = ledger.len();
    let mut work: Vec<i64> = Vec::new();
    let mut i: usize = 0;
    while i < n
        invariant
            i <= n,
            n == ledger@.len(),
            work.len() == i,
            forall|j: int| 0 <= j < i ==> work[j] == ledger@[j].quantity,
        decreases n - i,
    {
        work.push(ledger.holding_at(i).quantity);
        i += 1;
    }
    assert(held(ledger@, work@) =~= ledger@);
    let mut k: usize = 0;
    assert(costs.deep_view().skip(0) =~= costs.deep_view());
    while k < costs.len()
        invariant
            k <= costs.len(),
            n == ledger@.len(),
            work.len() == n,
            names(ledger@).no_duplicates(),
            paid(ledger@, costs.deep_view()) == paid(
                held(ledger@, work@),
                costs.deep_view().skip(k as int),
            ),
        decreases costs.len() - k,
    {
        let ghost rows = held(ledger@, work@);
        let ghost rest = costs.deep_view().skip(k as int);
        assert(rest[0] == costs[k as int]@);
        assert(rest.drop_first() =~= costs.deep_view().skip(k + 1));
        assert(names(rows) =~= names(ledger@));
        match &costs[k] {
            UpgradeCost::Resource(name, amount) => {
                match ledger.position(name.as_str()) {
                    Some(at) => {
                        match work[at].checked_sub(*amount as i64) {
                            Some(left) => {
                                work.set(at, left);
                                assert(held(ledger@, work@) =~= with_quantity(
                                    rows,
                                    at as int,
                                    left as int,
                                ));
                            },
                            None => {
                                return Err(UpgradeError::LedgerLimit);
                            },
                        }
                    },
                    None => {},
                }
            },
            UpgradeCost::Category(name, amount) => {
                if !take_from_category(ledger, &mut work, name, *amount) {
                    return Err(UpgradeError::CategoryDeductionFailed(name.clone()));
                }
            },
        }
        k += 1;
    }
    Ok(work)
}

/// Writes the quantities `quantities` into the rows of the ledger.
pub fn settle(ledger: &mut Ledger, quantities: &Vec<i64>)
    requires
        quantities.len() == old(ledger)@.len(),
    ensures
        final(ledger)@ == held(old(ledger)@, quantities@),
{
    let n = quantities.len();
    let mut i: usize = 0;
    while i < n
        invariant
            i <= n,
            n == quantities.len(),
            ledger@.len() == n,
            old(ledger)@.len() == n,
            forall|j: int|
                0 <= j < n ==> (#[trigger] ledger@[j]).name == old(ledger)@[j].name && ledger@[j].category
                    == old(ledger)@[j].category,
            forall|j: int| 0 <= j < i ==> (#[trigger] ledger@[j]).quantity == quantities[j],
        decreases n - i,
    {
        let category = ledger.holding_at(i).category.clone();
        let ghost before = ledger@;
        ledger.holdings.set_at(i, Holding { category, quantity: quantities[i] });
        assert(ledger@ =~= with_quantity(before, i as int, quantities[i as int] as int));
        i += 1;
    }
    assert(ledger@ =~= held(old(ledger)@, quantities@));
}

/// Upgrades the building `building_name` of `team` by one level and pays
/// for it from the team's ledger.
///
/// The building type is `building_name` in lower case. Either the level
/// rises by one and every cost of the new level is paid, or the team stays
/// exactly as it was and the error says why.
pub fn upgrade_building(team: &mut Team, config: &TownConfig, building_name: &str) -> (r: Result<
    UpgradeOutcome,
    UpgradeError,
>)
    ensures
        match r {
            Ok(outcome) => {
                &&& outcome.building@ == lowercase(building_name@)
                &&& upgraded(
                    config.assets@,
                    old(team).buildings@,
                    old(team).resources@,
                    outcome.building@,
                ) == Ok::<(u32, Seq<Row>), Refusal>((outcome.level, final(team).resources@))
                &&& final(team).buildings@ == old(team).buildings@.insert(
                    outcome.building@,
                    outcome.level,
                )
                &&& outcome.costs.deep_view() == costs_of_rows(
                    config.assets@[outcome.building@].upgrade_costs@,
                    outcome.level,
                )
                &&& final(team).id == old(team).id
                &&& final(team).name == old(team).name
                &&& final(team).handicap == old(team).handicap
            },
            Err(e) => {
                &&& upgraded(
                    config.assets@,
                    old(team).buildings@,
                    old(team).resources@,
                    lowercase(building_name@),
                ) == Err::<(u32, Seq<Row>), Refusal>(e@)
                &&& *final(team) == *old(team)
            },
        },
        levels_in_bounds(old(team).buildings@, config.assets@) ==> levels_in_bounds(
            final(team).buildings@,
            config.assets@,
        ),
{
    let building = to_lowercase(building_name);
    let asset = match config.assets.get(building.as_str()) {
        Some(asset) => asset,
        None => {
            return Err(UpgradeError::UnknownBuilding);
        },
    };
    let at = match team.buildings.position(building.as_str()) {
        Some(at) => at,
        None => {
            return Err(UpgradeError::BuildingMissing);
        },
    };
    let current = *team.buildings.value_at(at);
    if current >= asset.max_level {
        return Err(UpgradeError::AlreadyMaxed);
    }
    let level = current + 1;
    let costs = config.get_upgrade_costs(building.as_str(), level);
    if costs.len() == 0 {
        return Err(UpgradeError::NoCostDefined);
    }
    let missing = shortfalls(&team.resources, &costs);
    if missing.len() > 0 {
        return Err(UpgradeError::InsufficientResources(missing));
    }
    let quantities = match pay(&team.resources, &costs) {
        Ok(quantities) => quantities,
        Err(e) => {
            return Err(e);
        },
    };
    settle(&mut team.resources, &quantities);
    team.buildings.set_at(at, level);
    Ok(UpgradeOutcome { building, level, costs })
}

/// Upgrades the building `building_name` of `team` by one level without
/// payment.
///
/// The building type is `building_name` in lower case. Either the level
/// rises by one, or the team stays exactly as it was and the error says why.
/// The ledger stays as it was in both cases.
pub fn force_upgrade_building(team: &mut Team, config: &TownConfig, building_name: &str) -> (r:
    Result<UpgradeOutcome, UpgradeError>)
    ensures
        match r {
            Ok(outcome) => {
                &&& outcome.building@ == lowercase(building_name@)
                &&& force_upgraded(config.assets@, old(team).buildings@, outcome.building@) == Ok::<
                    u32,
                    Refusal,
                >(outcome.level)
                &&& final(team).buildings@ == old(team).buildings@.insert(
                    outcome.building@,
                    outcome.level,
                )
                &&& outcome.costs@ == Seq::<UpgradeCost>::empty()
                &&& final(team).resources == old(team).resources
                &&& final(team).id == old(team).id
                &&& final(team).name == old(team).name
                &&& final(team).handicap == old(team).handicap
            },
            Err(e) => {
                &&& force_upgraded(
                    config.assets@,
                    old(team).buildings@,
                    lowercase(building_name@),
                ) == Err::<u32, Refusal>(e@)
                &&& *final(team) == *old(team)
            },
        },
        levels_in_bounds(old(team).buildings@, config.assets@) ==> levels_in_bounds(
            final(team).buildings@,
            config.assets@,
        ),
{
    let building = to_lowercase(building_name);
    let asset = match config.assets.get(building.as_str()) {
        Some(asset) => asset,
        None => {
            return Err(UpgradeError::UnknownBuilding);
        },
    };
    let at = match team.buildings.position(building.as_str()) {
        Some(at) => at,
        None => {
            return Err(UpgradeError::BuildingMissing);
        },
    };
    let current = *team.buildings.value_at(at);
    if current >= asset.max_level {
        return Err(UpgradeError::AlreadyMaxed);
    }
    let level = current + 1;
    team.buildings.set_at(at, level);
    Ok(UpgradeOutcome { building, level, costs: Vec::new() })
}

/// Downgrades the building `building_name` of `team` by one level. Nothing
/// is paid back.
///
/// The building type is `building_name` in lower case. Either the level
/// falls by one, or the team stays exactly as it was and the error says why.
/// The ledger stays as it was in both cases.
pub fn downgrade_building(team: &mut Team, config: &TownConfig, building_name: &str) -> (r: Result<
    UpgradeOutcome,
    UpgradeError,
>)
    ensures
        match r {
            Ok(outcome) => {
                &&& outcome.building@ == lowercase(building_name@)
                &&& downgraded(config.assets@, old(team).buildings@, outcome.building@) == Ok::<
                    u32,
                    Refusal,
                >(outcome.level)
                &&& final(team).buildings@ == old(team).buildings@.insert(
                    outcome.building@,
                    outcome.level,
                )
                &&& outcome.costs@ == Seq::<UpgradeCost>::empty()
                &&& final(team).resources == old(team).resources
                &&& final(team).id == old(team).id
                &&& final(team).name == old(team).name
                &&& final(team).handicap == old(team).handicap
            },
            Err(e) => {
                &&& downgraded(config.assets@, old(team).buildings@, lowercase(building_name@))
                    == Err::<u32, Refusal>(e@)
                &&& *final(team) == *old(team)
            },
        },
        levels_in_bounds(old(team).buildings@, config.assets@) ==> levels_in_bounds(
            final(team).buildings@,
            config.assets@,
        ),
{
    let building = to_lowercase(building_name);
    let asset = match config.assets.get(building.as_str()) {
        Some(asset) => asset,
        None => {
            return Err(UpgradeError::UnknownBuilding);
        },
    };
    let at = match team.buildings.position(building.as_str()) {
        Some(at) => at,
        None => {
            return Err(UpgradeError::BuildingMissing);
        },
    };
    let current = *team.buildings.value_at(at);
    if current <= asset.starting_level {
        return Err(UpgradeError::AlreadyAtMinimum);
    }
    let level = current - 1;
    team.buildings.set_at(at, level);
    Ok(UpgradeOutcome { building, level, costs: Vec::new() })
}

} // verus!
