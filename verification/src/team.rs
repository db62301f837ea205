//! A team: its identity, the levels of its buildings and its resources.

use crate::buildings::{BuildingConfig, TownConfig};
use crate::ledger::{Ledger, Row};
use crate::strmap::StrMap;
use crate::text::{lowercase, to_lowercase};
use vstd::prelude::*;

verus! {

/// The least handicap that a team can have.
pub const MIN_HANDICAP: i32 = 1;

/// The greatest handicap that a team can have.
pub const MAX_HANDICAP: i32 = 5;

/// A team.
pub struct Team {
    pub id: i32,
    /// The name, in lower case.
    pub name: String,
    /// The balancing modifier, from `MIN_HANDICAP` to `MAX_HANDICAP`.
    pub handicap: i32,
    /// The level of each building, keyed by building type.
    pub buildings: StrMap<u32>,
    pub resources: Ledger,
}

/// The levels that a new team's buildings have: for each of the first `n`
/// building types of `assets`, its starting level.
pub open spec fn starting_levels(assets: Seq<(Seq<char>, BuildingConfig)>, n: int) -> Map<
    Seq<char>,
    u32,
>
    decreases n,
{
    if n <= 0 {
        Map::empty()
    } else {
        starting_levels(assets, n - 1).insert(assets[n - 1].0, assets[n - 1].1.starting_level)
    }
}

/// Whether every building of `levels` that `assets` knows stands between its
/// starting level and its highest level.
pub open spec fn levels_in_bounds(
    levels: Map<Seq<char>, u32>,
    assets: Map<Seq<char>, BuildingConfig>,
) -> bool {
    forall|building: Seq<char>|
        levels.contains_key(building) && assets.contains_key(building) ==> assets[building].starting_level
            <= #[trigger] levels[building] <= assets[building].max_level
}

/// Whether no building of `assets` starts above its highest level.
pub open spec fn starts_within(assets: Map<Seq<char>, BuildingConfig>) -> bool {
    forall|building: Seq<char>|
        assets.contains_key(building) ==> (#[trigger] assets[building]).starting_level
            <= assets[building].max_level
}

impl Team {
    /// The new team `name` with the number `id`: its name in lower case, no
    /// resources, and every building of `config` at its starting level.
    /// There is no team with a handicap outside `MIN_HANDICAP` to
    /// `MAX_HANDICAP`.
    pub fn new(id: i32, name: &str, handicap: i32, config: &TownConfig) -> (r: Option<Team>)
        ensures
            r is Some <==> MIN_HANDICAP <= handicap <= MAX_HANDICAP,
            r matches Some(team) ==> {
                &&& team.id == id
                &&& team.name@ == lowercase(name@)
                &&& team.handicap == handicap
                &&& team.resources@ == Seq::<Row>::empty()
                &&& team.buildings@ == starting_levels(
                    config.assets.entries(),
                    config.assets.entries().len() as int,
                )
                &&& forall|building: Seq<char>| #[trigger]
                    team.buildings@.contains_key(building) ==> config.assets@.contains_key(building)
                        && team.buildings@[building] == config.assets@[building].starting_level
                &&& starts_within(config.assets@) ==> levels_in_bounds(
                    team.buildings@,
                    config.assets@,
                )
            },
    {
        if handicap < MIN_HANDICAP || handicap > MAX_HANDICAP {
            return None;
        }
        let mut buildings: StrMap<u32> = StrMap::new();
        let n = config.assets.len();
        let mut i: usize = 0;
        while i < n
            invariant
                i <= n,
                n == config.assets.entries().len(),
                buildings@ == starting_levels(config.assets.entries(), i as int),
                forall|building: Seq<char>| #[trigger]
                    buildings@.contains_key(building) ==> config.assets@.contains_key(building)
                        && buildings@[building] == config.assets@[building].starting_level,
            decreases n - i,
        {
            let key = config.assets.key_at(i).clone();
            let level = config.assets.value_at(i).starting_level;
            let ghost before = buildings@;
            buildings.insert(key, level);
            assert forall|building: Seq<char>| #[trigger]
                buildings@.contains_key(building) implies config.assets@.contains_key(building)
                && buildings@[building] == config.assets@[building].starting_level by {
                if building != key@ {
                    assert(before.contains_key(building));
                }
            }
            i += 1;
        }
        Some(
            Team { id, name: to_lowercase(name), handicap, buildings, resources: Ledger::new() },
        )
    }
}

} // verus!
