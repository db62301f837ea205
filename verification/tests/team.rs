use clanwars::buildings::{BuildingConfig, TownConfig};
use clanwars::strmap::StrMap;
use clanwars::team::Team;

fn config() -> TownConfig {
    let mut assets: StrMap<BuildingConfig> = StrMap::new();
    for (key, start) in [("townhall", 1u32), ("armory", 0), ("garrisons", 2)] {
        assets.insert(
            key.to_string(),
            BuildingConfig {
                name: key.to_uppercase(),
                description: String::new(),
                starting_level: start,
                max_level: 9,
                icon: String::new(),
                upgrade_costs: Vec::new(),
                benefits: Vec::new(),
            },
        );
    }
    TownConfig { assets, resources: StrMap::new() }
}

#[test]
fn a_new_team_has_every_building_at_its_starting_level() {
    let team = Team::new(7, "Dragon Hunters", 3, &config()).unwrap();
    assert_eq!(team.id, 7);
    assert_eq!(team.name, "dragon hunters");
    assert_eq!(team.handicap, 3);
    assert_eq!(team.buildings.len(), 3);
    assert_eq!(team.buildings.get("townhall"), Some(&1));
    assert_eq!(team.buildings.get("armory"), Some(&0));
    assert_eq!(team.buildings.get("garrisons"), Some(&2));
    assert_eq!(team.resources.len(), 0);
}

#[test]
fn a_handicap_is_from_one_to_five() {
    assert!(Team::new(1, "a", 0, &config()).is_none());
    assert!(Team::new(1, "a", 6, &config()).is_none());
    assert!(Team::new(1, "a", 1, &config()).is_some());
    assert!(Team::new(1, "a", 5, &config()).is_some());
}
