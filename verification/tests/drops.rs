use clanwars::access::{AccessTables, Denial, LevelAccess};
use clanwars::bestiary::Bestiary;
use clanwars::buildings::TownConfig;
use clanwars::dink::{parse_loot_text, DinkDrop};
use clanwars::drops::{
    book, force_insert_resource, InsertOutcome, credit_loots, get_user_team, process_drop, process_team_drop,
    should_update_team_embeds, webhook_content, DropOutcome, Rules,
};
use clanwars::ledger::{get_resource_quantity_by_name, insert_new_resource, Ledger};
use clanwars::modifiers::{ModifierRow, ModifierTable, Multiplier};
use clanwars::patterns::{PatternConfig, ResourcePattern};
use clanwars::strmap::StrMap;
use clanwars::team::Team;

fn rules(armory_limit: u32) -> Rules {
    let mut bestiary = Bestiary::new();
    bestiary.monster_levels.insert("Green dragon".to_string(), 79);
    let pattern = |p: &str, c: &str| ResourcePattern { pattern: p.to_string(), category: c.to_string() };
    Rules {
        bestiary,
        patterns: PatternConfig {
            resource_pattern: vec![
                pattern("^bones$", "bone"),
                pattern("^.oins$", "currency"),
                pattern("ore$", "mining"),
            ],
        },
        access: AccessTables {
            armory: vec![LevelAccess { level: 1, limit: armory_limit }],
            slayer_master: vec![],
        },
        modifiers: ModifierTable {
            rows: vec![ModifierRow {
                building: "mine".to_string(),
                level: 1,
                category: "mining".to_string(),
                multiplier: Multiplier::new(3, 2).unwrap(),
                flat_bonus: 2,
            }],
        },
    }
}

fn team(id: i32, name: &str) -> Team {
    let empty = TownConfig { assets: StrMap::new(), resources: StrMap::new() };
    let mut team = Team::new(id, name, 1, &empty).unwrap();
    team.buildings.insert("armory".to_string(), 1);
    team.buildings.insert("mine".to_string(), 1);
    team
}

fn members() -> StrMap<i32> {
    let mut members = StrMap::new();
    members.insert("solo h".to_string(), 2);
    members.insert("lost".to_string(), 9);
    members
}

fn coins(team: &Team) -> Option<i64> {
    get_resource_quantity_by_name(&team.resources, "coins")
}

const NOTIFICATION: &str = "Solo H has looted: \n\n15 x [Coins](u) (15)\nFrom: [Green dragon](u)";

#[test]
fn a_valid_drop_is_credited() {
    let mut teams = vec![team(1, "beta"), team(2, "alpha")];
    insert_new_resource(&mut teams[1].resources, "coins", "currency", 5);
    let drop = parse_loot_text(NOTIFICATION).unwrap();
    let outcome = process_drop(&rules(100), &members(), &mut teams, &drop);
    assert_eq!(outcome, DropOutcome::Processed);
    assert_eq!(coins(&teams[1]), Some(20));
    assert_eq!(coins(&teams[0]), None);
    assert_eq!(teams[0].resources.len(), 0);
    let again = process_drop(&rules(100), &members(), &mut teams, &drop);
    assert_eq!(again, DropOutcome::Processed);
    assert_eq!(coins(&teams[1]), Some(35));
}

#[test]
fn a_denied_drop_changes_nothing() {
    let mut teams = vec![team(1, "beta"), team(2, "alpha")];
    let drop = parse_loot_text(NOTIFICATION).unwrap();
    let outcome = process_drop(&rules(50), &members(), &mut teams, &drop);
    assert_eq!(outcome, DropOutcome::Denied(Denial::CombatLevel));
    assert_eq!(teams[1].resources.len(), 0);
    assert_eq!(teams[0].resources.len(), 0);
}

#[test]
fn an_unknown_item_is_passed_over() {
    let mut team = team(2, "alpha");
    let drop = DinkDrop::new(
        "Solo H".to_string(),
        "Green dragon".to_string(),
        vec![
            ("Bones".to_string(), 1),
            ("Dragon platebody".to_string(), 1),
            ("Iron ore".to_string(), 10),
        ],
    );
    let outcome = process_team_drop(&rules(100), &mut team, &drop);
    assert_eq!(outcome, DropOutcome::Processed);
    assert_eq!(team.resources.len(), 2);
    assert_eq!(get_resource_quantity_by_name(&team.resources, "bones"), Some(1));
    assert_eq!(get_resource_quantity_by_name(&team.resources, "iron ore"), Some(17));
    assert_eq!(get_resource_quantity_by_name(&team.resources, "dragon platebody"), None);
    assert_eq!(team.resources.holding_at(1).category, "mining");
}

#[test]
fn a_player_without_a_team_is_ignored() {
    let mut teams = vec![team(1, "beta"), team(2, "alpha")];
    let stranger = DinkDrop::new("Nobody".to_string(), "Green dragon".to_string(), vec![("Coins".to_string(), 1)]);
    assert_eq!(process_drop(&rules(100), &members(), &mut teams, &stranger), DropOutcome::NotInTeam);
    let lost = DinkDrop::new("Lost".to_string(), "Green dragon".to_string(), vec![("Coins".to_string(), 1)]);
    assert_eq!(process_drop(&rules(100), &members(), &mut teams, &lost), DropOutcome::NotInTeam);
    assert_eq!(teams[0].resources.len(), 0);
    assert_eq!(teams[1].resources.len(), 0);
}

#[test]
fn the_team_of_a_player_is_the_first_with_the_number() {
    let teams = vec![team(1, "beta"), team(2, "alpha"), team(2, "gamma")];
    assert_eq!(get_user_team(&members(), &teams, "solo h"), Some(1));
    assert_eq!(get_user_team(&members(), &teams, "Solo H"), None);
    assert_eq!(get_user_team(&members(), &teams, "lost"), None);
}

#[test]
fn the_category_of_a_row_stays_as_it_came_in() {
    let mut ledger = Ledger::new();
    assert!(book(&mut ledger, "coins", "currency", 5));
    assert!(book(&mut ledger, "coins", "other", 7));
    assert_eq!(ledger.len(), 1);
    assert_eq!(ledger.holding_at(0).category, "currency");
    assert_eq!(ledger.holding_at(0).quantity, 12);
    assert!(book(&mut ledger, "coins", "currency", -20));
    assert_eq!(ledger.holding_at(0).quantity, -8);
}

#[test]
fn crediting_stops_where_the_ledger_cannot_hold_more() {
    let mut team = team(2, "alpha");
    insert_new_resource(&mut team.resources, "coins", "currency", i64::MAX - 1);
    let loots = vec![
        ("Bones".to_string(), 2),
        ("Coins".to_string(), 2),
        ("Bones".to_string(), 3),
    ];
    assert_eq!(credit_loots(&rules(100), &mut team, &loots), Some(1));
    assert_eq!(coins(&team), Some(i64::MAX - 1));
    assert_eq!(get_resource_quantity_by_name(&team.resources, "bones"), Some(2));
    let mut ledger = Ledger::new();
    assert!(!book(&mut ledger, "x", "c", i64::MAX as i128 + 1));
    assert!(!book(&mut ledger, "x", "c", i128::MAX));
    assert_eq!(ledger.len(), 0);
    assert_eq!(DropOutcome::LedgerLimit(1).message(), "Ledger cannot hold the quantity");
}

#[test]
fn outcomes_have_messages() {
    assert!(DropOutcome::Processed.succeeded());
    assert!(!DropOutcome::NotInTeam.succeeded());
    assert!(!DropOutcome::Denied(Denial::InvalidSource).succeeded());
    assert_eq!(DropOutcome::Processed.message(), "Drop processed successfully");
    assert_eq!(DropOutcome::NotInTeam.message(), "Not in any team");
    assert_eq!(DropOutcome::Denied(Denial::InvalidSource).message(), "Invalid source");
}

#[test]
fn refreshes_are_thirty_seconds_apart() {
    assert!(should_update_team_embeds(None));
    assert!(!should_update_team_embeds(Some(0)));
    assert!(!should_update_team_embeds(Some(29)));
    assert!(should_update_team_embeds(Some(30)));
    assert!(should_update_team_embeds(Some(u64::MAX)));
}

#[test]
fn reports_name_player_source_and_reason() {
    assert_eq!(webhook_content("Solo H", true, "Man", Some("ignored")), "Solo H Man \u{2705}");
    assert_eq!(
        webhook_content("Solo H", false, "Man", Some("Invalid source")),
        "Solo H Man \u{274c} Invalid source"
    );
    assert_eq!(webhook_content("Solo H", false, "Man", None), "Solo H Man \u{274c} ");
}

#[test]
fn a_resource_put_in_by_hand_is_scaled_and_booked() {
    let mut team = team(2, "alpha");
    assert_eq!(force_insert_resource(&rules(1), &mut team, "Iron Ore", 10), InsertOutcome::Inserted);
    assert_eq!(get_resource_quantity_by_name(&team.resources, "iron ore"), Some(17));
    assert_eq!(force_insert_resource(&rules(1), &mut team, "Whip", 1), InsertOutcome::NotAResource);
    assert_eq!(team.resources.len(), 1);
    insert_new_resource(&mut team.resources, "coins", "currency", i64::MAX);
    assert_eq!(force_insert_resource(&rules(1), &mut team, "coins", 1), InsertOutcome::LedgerLimit);
    assert_eq!(coins(&team), Some(i64::MAX));
}
