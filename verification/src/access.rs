//! The access gate: whether a team's buildings entitle it to the drops of a
//! source.

use crate::bestiary::Bestiary;
use crate::team::Team;
use crate::text::{lowercase, str_eq, to_lowercase};
use vstd::prelude::*;

verus! {

/// The building whose level bounds the combat level of the monsters that a
/// team may fight.
pub open spec fn armory_key() -> Seq<char> {
    "armory"@
}

/// The building whose level bounds the slayer level of the monsters that a
/// team may fight.
pub open spec fn slayer_master_key() -> Seq<char> {
    "slayer_master"@
}

/// The building whose level opens raids and chests.
pub open spec fn garrisons_key() -> Seq<char> {
    "garrisons"@
}

/// One row of a table that says what a building gives at one level: the
/// highest combat level, or the highest slayer level.
#[derive(Debug, Clone, Copy, PartialEq, Eq, Structural)]
pub struct LevelAccess {
    pub level: u32,
    pub limit: u32,
}

/// What the armory and the slayer master give at each of their levels. Of
/// two rows for one level the first counts; a level without a row gives no
/// access.
#[derive(Debug, Clone)]
pub struct AccessTables {
    pub armory: Vec<LevelAccess>,
    pub slayer_master: Vec<LevelAccess>,
}

/// Why a team gets no credit for a drop.
#[derive(Debug, Clone, Copy, PartialEq, Eq, Structural)]
pub enum Denial {
    /// The armory does not reach the combat level of the source.
    CombatLevel,
    /// The slayer master does not reach the slayer level of the source.
    SlayerLevel,
    /// The garrisons are below the level of the raid or chest.
    LunarChest,
    FortisColosseum,
    TombsOfAmascut,
    ChambersOfXeric,
    TheatreOfBlood,
    /// The source is neither a monster of the bestiary nor a known raid.
    InvalidSource,
}

/// Whether a team gets credit for a drop.
#[derive(Debug, Clone, Copy, PartialEq, Eq, Structural)]
pub enum Access {
    Granted,
    Denied(Denial),
}

/// What `table` gives at the level `level`: the limit of the first row for
/// that level.
pub open spec fn limit_at(table: Seq<LevelAccess>, level: u32) -> Option<u32>
    decreases table.len(),
{
    if table.len() == 0 {
        None
    } else if table[0].level == level {
        Some(table[0].limit)
    } else {
        limit_at(table.drop_first(), level)
    }
}

/// Whether a building at `level` reaches `needed` under `table`. A team
/// without the building, and a level without a row, reach nothing.
pub open spec fn reaches(table: Seq<LevelAccess>, level: Option<u32>, needed: u32) -> bool {
    match level {
        Some(level) => match limit_at(table, level) {
            Some(limit) => needed <= limit,
            None => false,
        },
        None => false,
    }
}

/// The level of the garrisons that the raid or chest `source` asks for, and
/// the denial that a team below it gets; `source` is in lower case.
pub open spec fn raid_requirement(source: Seq<char>) -> Option<(u32, Denial)> {
    if source == "lunar chest"@ {
        Some((2, Denial::LunarChest))
    } else if source == "fortis colosseum"@ {
        Some((3, Denial::FortisColosseum))
    } else if source == "tombs of amascut"@ || source == "tombs of amascut: expert mode"@ {
        Some((4, Denial::TombsOfAmascut))
    } else if source == "chambers of xeric"@ {
        Some((5, Denial::ChambersOfXeric))
    } else if source == "theatre of blood"@ {
        Some((6, Denial::TheatreOfBlood))
    } else {
        None
    }
}

/// The level of the building `building` in `levels`, if it is there.
pub open spec fn level_of(levels: Map<Seq<char>, u32>, building: Seq<char>) -> Option<u32> {
    if levels.contains_key(building) {
        Some(levels[building])
    } else {
        None
    }
}

/// The level of the garrisons in `levels`, and 0 where there are none.
pub open spec fn garrisons_level(levels: Map<Seq<char>, u32>) -> u32 {
    match level_of(levels, garrisons_key()) {
        Some(level) => level,
        None => 0,
    }
}

/// Whether a team gets credit for a drop, from what is known of the source
/// and of the team's buildings.
///
/// A source with a combat level is a monster: the armory must reach its
/// combat level and, where it asks for a slayer level, the slayer master must
/// reach that. Any other source must be a known raid or chest, `raid` being
/// its name in lower case, and the garrisons must have the level it asks
/// for.
pub open spec fn access_of(
    tables: AccessTables,
    combat: Option<u32>,
    slayer: Option<u32>,
    raid: Seq<char>,
    armory: Option<u32>,
    slayer_master: Option<u32>,
    garrisons: u32,
) -> Access {
    match combat {
        Some(combat_level) => if !reaches(tables.armory@, armory, combat_level) {
            Access::Denied(Denial::CombatLevel)
        } else {
            match slayer {
                Some(slayer_level) => if !reaches(
                    tables.slayer_master@,
                    slayer_master,
                    slayer_level,
                ) {
                    Access::Denied(Denial::SlayerLevel)
                } else {
                    Access::Granted
                },
                None => Access::Granted,
            }
        },
        None => match raid_requirement(raid) {
            Some((needed, denial)) => if garrisons < needed {
                Access::Denied(denial)
            } else {
                Access::Granted
            },
            None => Access::Denied(Denial::InvalidSource),
        },
    }
}

/// Whether a team with the building levels `levels` gets credit for a drop
/// from `source`.
pub open spec fn team_access(
    tables: AccessTables,
    bestiary: Bestiary,
    levels: Map<Seq<char>, u32>,
    source: Seq<char>,
) -> Access {
    access_of(
        tables,
        level_of(bestiary.monster_levels@, source),
        level_of(bestiary.monster_slayer_levels@, source),
        lowercase(source),
        level_of(levels, armory_key()),
        level_of(levels, slayer_master_key()),
        garrisons_level(levels),
    )
}

/// Whether a higher level never gives less under `table`: from a level with
/// a row upwards every level has a row, and the limits do not fall.
pub open spec fn rises(table: Seq<LevelAccess>) -> bool {
    forall|low: u32, high: u32|
        low <= high && (#[trigger] limit_at(table, low)) is Some ==> (#[trigger] limit_at(
            table,
            high,
        )) is Some && limit_at(table, low)->0 <= limit_at(table, high)->0
}

/// Whether a building that reaches `needed` under `table` still reaches it
/// at every higher level.
pub open spec fn keeps_reaching(table: Seq<LevelAccess>, needed: u32) -> bool {
    forall|low: u32, high: u32|
        low <= high && #[trigger] reaches(table, Some(low), needed) ==> #[trigger] reaches(
            table,
            Some(high),
            needed,
        )
}

/// Under a table that rises, a building that reaches a level still reaches
/// it at every higher level.
pub proof fn lemma_rising_table_keeps_reaching(table: Seq<LevelAccess>, needed: u32)
    requires
        rises(table),
    ensures
        keeps_reaching(table, needed),
{
}

/// Whether the level `high` of a building is at least the level `low`; a
/// building that is not there is below every building that is.
pub open spec fn at_least(high: Option<u32>, low: Option<u32>) -> bool {
    match (low, high) {
        (None, _) => true,
        (Some(l), Some(h)) => l <= h,
        (Some(_), None) => false,
    }
}

/// Access is monotonic in the levels of the gating buildings: a source that
/// is open to a team stays open when its armory, its slayer master or its
/// garrisons stand higher.
///
/// This holds where the tables keep what they give: the armory, once it
/// reaches the combat level of the source, reaches it at every higher level,
/// and so does the slayer master with the slayer level that the source asks
/// for. Tables that rise are such tables.
pub proof fn law_access_monotone(
    tables: AccessTables,
    combat: Option<u32>,
    slayer: Option<u32>,
    raid: Seq<char>,
    armory: Option<u32>,
    slayer_master: Option<u32>,
    garrisons: u32,
    higher_armory: Option<u32>,
    higher_slayer_master: Option<u32>,
    higher_garrisons: u32,
)
    requires
        combat matches Some(combat_level) ==> keeps_reaching(tables.armory@, combat_level),
        combat is Some ==> (slayer matches Some(slayer_level) ==> keeps_reaching(
            tables.slayer_master@,
            slayer_level,
        )),
        at_least(higher_armory, armory),
        at_least(higher_slayer_master, slayer_master),
        garrisons <= higher_garrisons,
        access_of(tables, combat, slayer, raid, armory, slayer_master, garrisons)
            == Access::Granted,
    ensures
        access_of(
            tables,
            combat,
            slayer,
            raid,
            higher_armory,
            higher_slayer_master,
            higher_garrisons,
        ) == Access::Granted,
{
}

/// What `table` gives at the level `level`.
pub fn lookup_limit(table: &Vec<LevelAccess>, level: u32) -> (r: Option<u32>)
    ensures
        r == limit_at(table@, level),
{
    let mut i: usize = 0;
    assert(table@.skip(0) =~= table@);
    while i < table.len()
        invariant
            i <= table.len(),
            limit_at(table@, level) == limit_at(table@.skip(i as int), level),
        decreases table.len() - i,
    {
        assert(table@.skip(i as int).drop_first() =~= table@.skip(i + 1));
        if table[i].level == level {
            return Some(table[i].limit);
        }
        i += 1;
    }
    None
}

/// The level of the building `building_name` of `team`, and 0 where the
/// team has no such building.
pub fn get_team_building_level(team: &Team, building_name: &str) -> (level: u32)
    ensures
        level == match level_of(team.buildings@, building_name@) {
            Some(level) => level,
            None => 0,
        },
{
    match team.buildings.get(building_name) {
        Some(level) => *level,
        None => 0,
    }
}

/// Whether the building `building` of `team` reaches `needed` under
/// `table`; nothing where the team has no such building or the table no row
/// for its level.
fn building_reaches(team: &Team, table: &Vec<LevelAccess>, building: &str, needed: u32) -> (r:
    Option<bool>)
    ensures
        r == match level_of(team.buildings@, building@) {
            Some(level) => match limit_at(table@, level) {
                Some(limit) => Some(needed <= limit),
                None => None,
            },
            None => None,
        },
        (r == Some(true)) == reaches(table@, level_of(team.buildings@, building@), needed),
{
    match team.buildings.get(building) {
        Some(level) => match lookup_limit(table, *level) {
            Some(limit) => Some(needed <= limit),
            None => None,
        },
        None => None,
    }
}

/// Whether the armory of `team` reaches the combat level `level`; nothing
/// where the team has no armory or the table no row for its level.
pub fn get_team_armory_level(tables: &AccessTables, level: u32, team: &Team) -> (r: Option<bool>)
    ensures
        (r == Some(true)) == reaches(tables.armory@, level_of(team.buildings@, armory_key()), level),
        r is None <==> (level_of(team.buildings@, armory_key()) matches Some(at) ==> limit_at(
            tables.armory@,
            at,
        ) is None),
{
    building_reaches(team, &tables.armory, "armory", level)
}

/// Whether the slayer master of `team` reaches the slayer level `level`;
/// nothing where the team has no slayer master or the table no row for its
/// level.
pub fn get_team_slayer_level(tables: &AccessTables, level: u32, team: &Team) -> (r: Option<bool>)
    ensures
        (r == Some(true)) == reaches(
            tables.slayer_master@,
            level_of(team.buildings@, slayer_master_key()),
            level,
        ),
        r is None <==> (level_of(team.buildings@, slayer_master_key()) matches Some(at)
            ==> limit_at(tables.slayer_master@, at) is None),
{
    building_reaches(team, &tables.slayer_master, "slayer_master", level)
}

/// The level of the garrisons that the raid or chest `source` asks for;
/// `source` is in lower case.
pub fn raid_needs(source: &str) -> (r: Option<(u32, Denial)>)
    ensures
        r == raid_requirement(source@),
{
    if str_eq(source, "lunar chest") {
        Some((2, Denial::LunarChest))
    } else if str_eq(source, "fortis colosseum") {
        Some((3, Denial::FortisColosseum))
    } else if str_eq(source, "tombs of amascut") || str_eq(
        source,
        "tombs of amascut: expert mode",
    ) {
        Some((4, Denial::TombsOfAmascut))
    } else if str_eq(source, "chambers of xeric") {
        Some((5, Denial::ChambersOfXeric))
    } else if str_eq(source, "theatre of blood") {
        Some((6, Denial::TheatreOfBlood))
    } else {
        None
    }
}

/// Whether `team` gets credit for a drop from `source`.
pub fn check_access(tables: &AccessTables, bestiary: &Bestiary, team: &Team, source: &str) -> (r:
    Access)
    ensures
        r == team_access(*tables, *bestiary, team.buildings@, source@),
{
    match bestiary.get_combat_level(source) {
        Some(combat_level) => {
            match get_team_armory_level(tables, combat_level, team) {
                Some(true) => {},
                _ => {
                    return Access::Denied(Denial::CombatLevel);
                },
            }
            match bestiary.get_slayer_level(source) {
                Some(slayer_level) => match get_team_slayer_level(tables, slayer_level, team) {
                    Some(true) => Access::Granted,
                    _ => Access::Denied(Denial::SlayerLevel),
                },
                None => Access::Granted,
            }
        },
        None => {
            let garrisons = get_team_building_level(team, "garrisons");
            let lower = to_lowercase(source);
            match raid_needs(lower.as_str()) {
                Some((needed, denial)) => if garrisons < needed {
                    Access::Denied(denial)
                } else {
                    Access::Granted
                },
                None => Access::Denied(Denial::InvalidSource),
            }
        },
    }
}

impl Denial {
    /// The reason in words.
    pub open spec fn reason_text(self) -> Seq<char> {
        match self {
            Denial::CombatLevel => "Team lacks access to this combat level"@,
            Denial::SlayerLevel => "Team lacks access to this slayer level"@,
            Denial::LunarChest => "Team lacks access to Lunar Chests"@,
            Denial::FortisColosseum => "Team lacks access to Fortis Colosseum"@,
            Denial::TombsOfAmascut => "Team lacks access to Tombs of Amascut"@,
            Denial::ChambersOfXeric => "Team lacks access to Chambers of Xeric"@,
            Denial::TheatreOfBlood => "Team lacks access to Theatre of Blood"@,
            Denial::InvalidSource => "Invalid source"@,
        }
    }

    /// The reason in words.
    pub fn reason(&self) -> (text: &'static str)
        ensures
            text@ == self.reason_text(),
    {
        match self {
            Denial::CombatLevel => "Team lacks access to this combat level",
            Denial::SlayerLevel => "Team lacks access to this slayer level",
            Denial::LunarChest => "Team lacks access to Lunar Chests",
            Denial::FortisColosseum => "Team lacks access to Fortis Colosseum",
            Denial::TombsOfAmascut => "Team lacks access to Tombs of Amascut",
            Denial::ChambersOfXeric => "Team lacks access to Chambers of Xeric",
            Denial::TheatreOfBlood => "Team lacks access to Theatre of Blood",
            Denial::InvalidSource => "Invalid source",
        }
    }
}

} // verus!
