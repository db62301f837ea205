//! The catalogue of buildings: what each building is, how far it can be
//! upgraded, and what each level costs.

use crate::strmap::StrMap;
use crate::text::{
    chars_of, decimal, decimal_chars, extend, extend_str, matches_at, starts_with, string_of,
    strip_leading, without_leading,
};
use vstd::prelude::*;

verus! {

/// One cell of a row of the configuration: a number, a text, or anything
/// else.
#[derive(Debug, Clone)]
pub enum CostValue {
    Number(u64),
    Text(String),
    Other,
}

/// The configuration of one building.
#[derive(Debug, Clone)]
pub struct BuildingConfig {
    pub name: String,
    pub description: String,
    pub starting_level: u32,
    pub max_level: u32,
    pub icon: String,
    /// Rows of level, resource name or category reference, amount.
    pub upgrade_costs: Vec<Vec<CostValue>>,
    /// Rows of level, description of the benefit.
    pub benefits: Vec<Vec<CostValue>>,
}

/// What an upgrade costs: an amount of one resource, or an amount taken from
/// the resources of one category.
#[derive(Debug, Clone)]
pub enum UpgradeCost {
    Resource(String, u32),
    Category(String, u32),
}

/// What an `UpgradeCost` stands for.
pub ghost enum Cost {
    Resource { name: Seq<char>, amount: u32 },
    Category { name: Seq<char>, amount: u32 },
}

impl View for UpgradeCost {
    type V = Cost;

    open spec fn view(&self) -> Cost {
        match *self {
            UpgradeCost::Resource(name, amount) => Cost::Resource { name: name@, amount },
            UpgradeCost::Category(name, amount) => Cost::Category { name: name@, amount },
        }
    }
}

impl DeepView for UpgradeCost {
    type V = Cost;

    open spec fn deep_view(&self) -> Cost {
        self@
    }
}

/// The configuration of all buildings, keyed by building type.
pub struct TownConfig {
    pub assets: StrMap<BuildingConfig>,
    pub resources: StrMap<Vec<String>>,
}

/// What a category reference begins with.
pub open spec fn category_marker() -> Seq<char> {
    "$category:"@
}

/// Whether the key `key` refers to a category.
pub open spec fn is_category_key(key: Seq<char>) -> bool {
    starts_with(key, category_marker())
}

/// The category that the key `key` refers to.
pub open spec fn category_of_key(key: Seq<char>) -> Seq<char> {
    without_leading(key, category_marker())
}

/// The cost that the row `row` states for the level `level`, if it states
/// one: a row of at least three cells, the first the number `level`, the
/// second a text, the third a number that fits in 32 bits.
pub open spec fn cost_of_row(row: Seq<CostValue>, level: u32) -> Option<Cost> {
    if row.len() >= 3 {
        match (row[0], row[1], row[2]) {
            (CostValue::Number(at), CostValue::Text(key), CostValue::Number(amount)) => {
                if at == level && amount <= u32::MAX {
                    if is_category_key(key@) {
                        Some(Cost::Category { name: category_of_key(key@), amount: amount as u32 })
                    } else {
                        Some(Cost::Resource { name: key@, amount: amount as u32 })
                    }
                } else {
                    None
                }
            },
            _ => None,
        }
    } else {
        None
    }
}

/// The costs that `rows` state for the level `level`, in the order of the
/// rows.
pub open spec fn costs_of_rows(rows: Seq<Vec<CostValue>>, level: u32) -> Seq<Cost>
    decreases rows.len(),
{
    if rows.len() == 0 {
        Seq::empty()
    } else {
        match cost_of_row(rows.last()@, level) {
            Some(cost) => costs_of_rows(rows.drop_last(), level).push(cost),
            None => costs_of_rows(rows.drop_last(), level),
        }
    }
}

/// The key under which `cost` stands in a map of costs: the name of the
/// resource, or the category behind the category marker.
pub open spec fn cost_key(cost: Cost) -> Seq<char> {
    match cost {
        Cost::Resource { name, .. } => name,
        Cost::Category { name, .. } => category_marker() + name,
    }
}

/// The amount that `cost` asks for.
pub open spec fn cost_amount(cost: Cost) -> u32 {
    match cost {
        Cost::Resource { amount, .. } => amount,
        Cost::Category { amount, .. } => amount,
    }
}

/// The map from keys to amounts that `costs` make up; of two costs with one
/// key the last counts.
pub open spec fn costs_map(costs: Seq<Cost>) -> Map<Seq<char>, u32>
    decreases costs.len(),
{
    if costs.len() == 0 {
        Map::empty()
    } else {
        costs_map(costs.drop_last()).insert(cost_key(costs.last()), cost_amount(costs.last()))
    }
}

/// The line that shows the cost `cost`.
pub open spec fn cost_line(cost: Cost) -> Seq<char> {
    match cost {
        Cost::Resource { name, amount } => "`"@ + name + "`: "@ + decimal(amount as nat),
        Cost::Category { name, amount } => "`"@ + name + "` (category): "@ + decimal(
            amount as nat,
        ),
    }
}

/// The cost that `row` states for `level`, if it states one.
pub fn row_cost(row: &Vec<CostValue>, level: u32) -> (r: Option<UpgradeCost>)
    ensures
        r.deep_view() == cost_of_row(row@, level),
{
    if row.len() < 3 {
        return None;
    }
    match (&row[0], &row[1], &row[2]) {
        (CostValue::Number(at), CostValue::Text(key), CostValue::Number(amount)) => {
            if *at != level as u64 || *amount > u32::MAX as u64 {
                return None;
            }
            let amount: u32 = *amount as u32;
            let marker = chars_of("$category:");
            let chars = chars_of(key.as_str());
            if matches_at(chars.as_slice(), marker.as_slice(), 0) {
                let name = string_of(strip_leading(chars.as_slice(), marker.as_slice()));
                Some(UpgradeCost::Category(name, amount))
            } else {
                Some(UpgradeCost::Resource(key.clone(), amount))
            }
        },
        _ => None,
    }
}

impl TownConfig {
    /// The types of all buildings, in the order of the configuration.
    pub fn get_building_types(&self) -> (types: Vec<String>)
        ensures
            types.deep_view() == self.assets.keys(),
    {
        let mut types: Vec<String> = Vec::new();
        let n = self.assets.len();
        let mut i: usize = 0;
        while i < n
            invariant
                i <= n,
                n == self.assets.entries().len(),
                types.deep_view() == self.assets.keys().take(i as int),
            decreases n - i,
        {
            let key = self.assets.key_at(i).clone();
            let ghost before = types.deep_view();
            types.push(key);
            assert(types.deep_view() =~= before.push(key@));
            assert(self.assets.keys().take(i + 1) =~= self.assets.keys().take(i as int).push(
                key@,
            ));
            i += 1;
        }
        assert(self.assets.keys().take(n as int) =~= self.assets.keys());
        types
    }

    /// What it costs to bring a building of type `building_type` to the level
    /// `level`: the costs that its configuration states for that level, and
    /// none for a building type that the configuration does not know.
    pub fn get_upgrade_costs(&self, building_type: &str, level: u32) -> (costs: Vec<UpgradeCost>)
        ensures
            costs.deep_view() == if self.assets@.contains_key(building_type@) {
                costs_of_rows(self.assets@[building_type@].upgrade_costs@, level)
            } else {
                Seq::empty()
            },
    {
        let mut costs: Vec<UpgradeCost> = Vec::new();
        assert(costs.deep_view() =~= Seq::<Cost>::empty());
        match self.assets.get(building_type) {
            Some(building) => {
                let rows = &building.upgrade_costs;
                let mut i: usize = 0;
                assert(rows@.take(0) =~= Seq::<Vec<CostValue>>::empty());
                while i < rows.len()
                    invariant
                        i <= rows.len(),
                        costs.deep_view() == costs_of_rows(rows@.take(i as int), level),
                    decreases rows.len() - i,
                {
                    assert(rows@.take(i + 1).drop_last() =~= rows@.take(i as int));
                    assert(rows@.take(i + 1).last() == rows@[i as int]);
                    match row_cost(&rows[i], level) {
                        Some(cost) => {
                            let ghost before = costs.deep_view();
                            costs.push(cost);
                            assert(costs.deep_view() =~= before.push(cost@));
                        },
                        None => {},
                    }
                    i += 1;
                }
                assert(rows@.take(rows@.len() as int) =~= rows@);
            },
            None => {},
        }
        costs
    }

    /// What it costs to bring a building of type `building_type` to the level
    /// `level`, as a map from resource names and category references to
    /// amounts.
    pub fn get_upgrade_costs_map(&self, building_type: &str, level: u32) -> (costs: StrMap<u32>)
        ensures
            costs@ == costs_map(
                if self.assets@.contains_key(building_type@) {
                    costs_of_rows(self.assets@[building_type@].upgrade_costs@, level)
                } else {
                    Seq::empty()
                },
            ),
    {
        let listed = self.get_upgrade_costs(building_type, level);
        let mut costs: StrMap<u32> = StrMap::new();
        let mut i: usize = 0;
        assert(listed.deep_view().take(0) =~= Seq::<Cost>::empty());
        while i < listed.len()
            invariant
                i <= listed.len(),
                costs@ == costs_map(listed.deep_view().take(i as int)),
            decreases listed.len() - i,
        {
            let ghost upto = listed.deep_view().take(i + 1);
            assert(upto.drop_last() =~= listed.deep_view().take(i as int));
            assert(upto.last() == listed[i as int]@);
            match &listed[i] {
                UpgradeCost::Resource(name, amount) => {
                    costs.insert(name.clone(), *amount);
                },
                UpgradeCost::Category(name, amount) => {
                    let mut key: Vec<char> = Vec::new();
                    extend_str(&mut key, "$category:");
                    extend_str(&mut key, name.as_str());
                    assert(key@ =~= category_marker() + name@);
                    costs.insert(string_of(key.as_slice()), *amount);
                },
            }
            i += 1;
        }
        assert(listed.deep_view().take(listed.len() as int) =~= listed.deep_view());
        costs
    }

    /// Whether the key `cost_key` refers to a category.
    pub fn is_category_cost(&self, cost_key: &str) -> (r: bool)
        ensures
            r == is_category_key(cost_key@),
    {
        let marker = chars_of("$category:");
        let chars = chars_of(cost_key);
        matches_at(chars.as_slice(), marker.as_slice(), 0)
    }

    /// The category that the key `cost_key` refers to, if it refers to one.
    pub fn extract_category_name(&self, cost_key: &str) -> (r: Option<String>)
        ensures
            r.deep_view() == if is_category_key(cost_key@) {
                Some(category_of_key(cost_key@))
            } else {
                None
            },
    {
        if self.is_category_cost(cost_key) {
            let marker = chars_of("$category:");
            let chars = chars_of(cost_key);
            Some(string_of(strip_leading(chars.as_slice(), marker.as_slice())))
        } else {
            None
        }
    }
}

/// The line that shows `cost`.
pub fn format_upgrade_cost(cost: &UpgradeCost) -> (line: String)
    ensures
        line@ == cost_line(cost@),
{
    let mut out: Vec<char> = Vec::new();
    extend_str(&mut out, "`");
    match cost {
        UpgradeCost::Resource(name, amount) => {
            extend_str(&mut out, name.as_str());
            extend_str(&mut out, "`: ");
            let digits = decimal_chars(*amount as u64);
            extend(&mut out, digits.as_slice());
        },
        UpgradeCost::Category(name, amount) => {
            extend_str(&mut out, name.as_str());
            extend_str(&mut out, "` (category): ");
            let digits = decimal_chars(*amount as u64);
            extend(&mut out, digits.as_slice());
        },
    }
    assert(out@ =~= cost_line(cost@));
    string_of(out.as_slice())
}

/// The lines that show `costs`, one for each cost and in their order.
pub fn format_upgrade_costs(costs: &[UpgradeCost]) -> (shown: Vec<String>)
    ensures
        shown.len() == costs.len(),
        forall|i: int| 0 <= i < costs.len() ==> (#[trigger] shown[i])@ == cost_line(costs[i]@),
{
    let mut shown: Vec<String> = Vec::new();
    let mut i: usize = 0;
    while i < costs.len()
        invariant
            i <= costs.len(),
            shown.len() == i,
            forall|j: int| 0 <= j < i ==> (#[trigger] shown[j])@ == cost_line(costs[j]@),
        decreases costs.len() - i,
    {
        shown.push(format_upgrade_cost(&costs[i]));
        i += 1;
    }
    shown
}

} // verus!
