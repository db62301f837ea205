use clanwars::access::{
    check_access, get_team_armory_level, get_team_building_level, get_team_slayer_level,
    lookup_limit, raid_needs, Access, AccessTables, Denial, LevelAccess,
};
use clanwars::bestiary::Bestiary;
use clanwars::buildings::TownConfig;
use clanwars::strmap::StrMap;
use clanwars::team::Team;

fn tables() -> AccessTables {
    AccessTables {
        armory: vec![
            LevelAccess { level: 0, limit: 10 },
            LevelAccess { level: 1, limit: 50 },
            LevelAccess { level: 2, limit: 100 },
            LevelAccess { level: 2, limit: 500 },
        ],
        slayer_master: vec![
            LevelAccess { level: 1, limit: 30 },
            LevelAccess { level: 2, limit: 70 },
        ],
    }
}

fn bestiary() -> Bestiary {
    let mut bestiary = Bestiary::new();
    bestiary.monster_levels.insert("Green dragon".to_string(), 79);
    bestiary.monster_levels.insert("Kurask".to_string(), 106);
    bestiary.monster_levels.insert("Chicken".to_string(), 1);
    bestiary.monster_slayer_levels.insert("Kurask".to_string(), 70);
    bestiary
}

fn team(levels: &[(&str, u32)]) -> Team {
    let empty = TownConfig { assets: StrMap::new(), resources: StrMap::new() };
    let mut team = Team::new(1, "alpha", 1, &empty).unwrap();
    for (name, level) in levels {
        team.buildings.insert(name.to_string(), *level);
    }
    team
}

fn access(levels: &[(&str, u32)], source: &str) -> Access {
    check_access(&tables(), &bestiary(), &team(levels), source)
}

#[test]
fn the_armory_bounds_the_combat_level() {
    assert_eq!(access(&[("armory", 2)], "Green dragon"), Access::Granted);
    assert_eq!(access(&[("armory", 1)], "Green dragon"), Access::Denied(Denial::CombatLevel));
    assert_eq!(access(&[("armory", 0)], "Chicken"), Access::Granted);
    assert_eq!(access(&[], "Chicken"), Access::Denied(Denial::CombatLevel));
}

#[test]
fn a_level_without_a_row_gives_no_access() {
    assert_eq!(access(&[("armory", 3)], "Chicken"), Access::Denied(Denial::CombatLevel));
    assert_eq!(lookup_limit(&tables().armory, 3), None);
    assert_eq!(lookup_limit(&tables().armory, 2), Some(100));
    assert_eq!(get_team_armory_level(&tables(), 1, &team(&[("armory", 3)])), None);
    assert_eq!(get_team_armory_level(&tables(), 1, &team(&[])), None);
    assert_eq!(get_team_armory_level(&tables(), 51, &team(&[("armory", 1)])), Some(false));
    assert_eq!(get_team_armory_level(&tables(), 50, &team(&[("armory", 1)])), Some(true));
    assert_eq!(get_team_slayer_level(&tables(), 70, &team(&[("slayer_master", 2)])), Some(true));
    assert_eq!(get_team_slayer_level(&tables(), 71, &team(&[("slayer_master", 2)])), Some(false));
}

#[test]
fn the_slayer_master_bounds_the_slayer_level() {
    let mut armory = tables();
    armory.armory.push(LevelAccess { level: 5, limit: 200 });
    let with = |levels: &[(&str, u32)]| check_access(&armory, &bestiary(), &team(levels), "Kurask");
    assert_eq!(with(&[("armory", 5), ("slayer_master", 2)]), Access::Granted);
    assert_eq!(with(&[("armory", 5), ("slayer_master", 1)]), Access::Denied(Denial::SlayerLevel));
    assert_eq!(with(&[("armory", 5)]), Access::Denied(Denial::SlayerLevel));
    assert_eq!(with(&[("armory", 1), ("slayer_master", 2)]), Access::Denied(Denial::CombatLevel));
}

#[test]
fn raids_ask_for_garrisons() {
    let cases = [
        ("Lunar Chest", 2, Denial::LunarChest),
        ("Fortis Colosseum", 3, Denial::FortisColosseum),
        ("Tombs of Amascut", 4, Denial::TombsOfAmascut),
        ("Tombs of Amascut: Expert Mode", 4, Denial::TombsOfAmascut),
        ("Chambers of Xeric", 5, Denial::ChambersOfXeric),
        ("THEATRE OF BLOOD", 6, Denial::TheatreOfBlood),
    ];
    for (source, needed, denial) in cases {
        assert_eq!(access(&[("garrisons", needed)], source), Access::Granted);
        assert_eq!(access(&[("garrisons", needed - 1)], source), Access::Denied(denial));
        assert_eq!(access(&[], source), Access::Denied(denial));
        assert_eq!(raid_needs(&source.to_lowercase()), Some((needed, denial)));
    }
    assert_eq!(raid_needs("Lunar Chest"), None);
}

#[test]
fn an_unknown_source_is_denied() {
    assert_eq!(access(&[("garrisons", 9), ("armory", 2)], "Nobody"), Access::Denied(Denial::InvalidSource));
    assert_eq!(access(&[("garrisons", 9), ("armory", 2)], "green dragon"), Access::Denied(Denial::InvalidSource));
    assert_eq!(access(&[("garrisons", 9)], ""), Access::Denied(Denial::InvalidSource));
}

#[test]
fn a_higher_level_never_closes_a_source() {
    for source in ["Green dragon", "Chicken", "Lunar Chest", "Theatre of Blood", "Nobody"] {
        let mut open = false;
        for level in 0..3u32 {
            let now = access(&[("armory", level), ("garrisons", level * 3)], source) == Access::Granted;
            assert!(now || !open, "{} closed at level {}", source, level);
            open = now;
        }
    }
}

#[test]
fn building_levels_default_to_zero() {
    assert_eq!(get_team_building_level(&team(&[("garrisons", 4)]), "garrisons"), 4);
    assert_eq!(get_team_building_level(&team(&[]), "garrisons"), 0);
}

#[test]
fn denials_have_reasons() {
    assert_eq!(Denial::CombatLevel.reason(), "Team lacks access to this combat level");
    assert_eq!(Denial::SlayerLevel.reason(), "Team lacks access to this slayer level");
    assert_eq!(Denial::LunarChest.reason(), "Team lacks access to Lunar Chests");
    assert_eq!(Denial::FortisColosseum.reason(), "Team lacks access to Fortis Colosseum");
    assert_eq!(Denial::TombsOfAmascut.reason(), "Team lacks access to Tombs of Amascut");
    assert_eq!(Denial::ChambersOfXeric.reason(), "Team lacks access to Chambers of Xeric");
    assert_eq!(Denial::TheatreOfBlood.reason(), "Team lacks access to Theatre of Blood");
    assert_eq!(Denial::InvalidSource.reason(), "Invalid source");
}
