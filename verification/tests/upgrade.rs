use clanwars::buildings::{BuildingConfig, CostValue, TownConfig, UpgradeCost};
use clanwars::ledger::{
    get_resource_quantity_by_category, get_resource_quantity_by_name, insert_new_resource, Ledger,
};
use clanwars::strmap::StrMap;
use clanwars::team::Team;
use clanwars::upgrade::{
    available, downgrade_building, force_upgrade_building, pay, settle, shortfalls,
    upgrade_building, UpgradeError,
};

fn row(level: u64, key: &str, amount: u64) -> Vec<CostValue> {
    vec![
        CostValue::Number(level),
        CostValue::Text(key.to_string()),
        CostValue::Number(amount),
    ]
}

fn building(name: &str, start: u32, max: u32, costs: Vec<Vec<CostValue>>) -> BuildingConfig {
    BuildingConfig {
        name: name.to_string(),
        description: String::new(),
        starting_level: start,
        max_level: max,
        icon: String::new(),
        upgrade_costs: costs,
        benefits: Vec::new(),
    }
}

fn config() -> TownConfig {
    let mut assets: StrMap<BuildingConfig> = StrMap::new();
    assets.insert(
        "townhall".to_string(),
        building(
            "Town Hall",
            1,
            9,
            vec![row(2, "wood", 10), row(3, "wood", 20), row(4, "wood", 100)],
        ),
    );
    assets.insert(
        "bank".to_string(),
        building(
            "Bank",
            0,
            3,
            vec![
                row(1, "$category:currency", 12),
                row(2, "$category:currency", 3),
                row(2, "gold", 1),
                row(3, "gold", 5),
                row(3, "gold", 5),
            ],
        ),
    );
    assets.insert("shed".to_string(), building("Shed", 0, 2, vec![]));
    assets.insert(
        "vault".to_string(),
        building("Vault", 0, 1, vec![row(1, "gold", 8), row(1, "$category:currency", 5)]),
    );
    TownConfig { assets, resources: StrMap::new() }
}

fn team_with(levels: &[(&str, u32)], resources: &[(&str, &str, i64)]) -> Team {
    let mut team = Team::new(1, "Alpha", 1, &config()).unwrap();
    for (name, level) in levels {
        team.buildings.insert(name.to_string(), *level);
    }
    for (name, category, quantity) in resources {
        assert!(insert_new_resource(&mut team.resources, name, category, *quantity));
    }
    team
}

fn quantity(team: &Team, name: &str) -> Option<i64> {
    get_resource_quantity_by_name(&team.resources, name)
}

fn level(team: &Team, name: &str) -> Option<u32> {
    team.buildings.get(name).copied()
}

#[test]
fn upgrade_pays_and_raises_the_level() {
    let mut team = team_with(&[("townhall", 3)], &[("wood", "logs", 150)]);
    let outcome = upgrade_building(&mut team, &config(), "townhall").unwrap();
    assert_eq!(outcome.level, 4);
    assert_eq!(outcome.building, "townhall");
    assert_eq!(outcome.costs.len(), 1);
    assert_eq!(quantity(&team, "wood"), Some(50));
    assert_eq!(level(&team, "townhall"), Some(4));
    assert_eq!(level(&team, "bank"), Some(0));
}

#[test]
fn upgrade_without_the_resources_changes_nothing() {
    let mut team = team_with(&[("townhall", 3)], &[("wood", "logs", 50)]);
    match upgrade_building(&mut team, &config(), "townhall") {
        Err(UpgradeError::InsufficientResources(lacks)) => {
            assert_eq!(lacks.len(), 1);
            assert_eq!(lacks[0].available, 50);
            match &lacks[0].cost {
                UpgradeCost::Resource(name, amount) => {
                    assert_eq!(name, "wood");
                    assert_eq!(*amount, 100);
                }
                other => panic!("unexpected cost {:?}", other),
            }
        }
        other => panic!("unexpected result {:?}", other),
    }
    assert_eq!(quantity(&team, "wood"), Some(50));
    assert_eq!(level(&team, "townhall"), Some(3));
}

#[test]
fn upgrade_takes_the_name_in_any_case() {
    let mut team = team_with(&[("townhall", 1)], &[("wood", "logs", 10)]);
    let outcome = upgrade_building(&mut team, &config(), "TownHall").unwrap();
    assert_eq!(outcome.building, "townhall");
    assert_eq!(outcome.level, 2);
    assert_eq!(quantity(&team, "wood"), Some(0));
}

#[test]
fn category_cost_is_taken_from_the_richest_rows() {
    let mut team = team_with(
        &[],
        &[("silver", "currency", 5), ("wood", "logs", 9), ("gold", "currency", 10)],
    );
    let outcome = upgrade_building(&mut team, &config(), "bank").unwrap();
    assert_eq!(outcome.level, 1);
    assert_eq!(quantity(&team, "gold"), Some(0));
    assert_eq!(quantity(&team, "silver"), Some(3));
    assert_eq!(quantity(&team, "wood"), Some(9));
    assert_eq!(get_resource_quantity_by_category(&team.resources, "currency"), 3);
}

#[test]
fn of_equal_rows_the_first_gives_first() {
    let mut ledger = Ledger::new();
    insert_new_resource(&mut ledger, "a", "c", 4);
    insert_new_resource(&mut ledger, "b", "c", 4);
    insert_new_resource(&mut ledger, "z", "c", -2);
    let left = pay(&ledger, &vec![UpgradeCost::Category("c".to_string(), 5)]).unwrap();
    assert_eq!(left, vec![0, 3, -2]);
    settle(&mut ledger, &left);
    assert_eq!(get_resource_quantity_by_name(&ledger, "a"), Some(0));
    assert_eq!(get_resource_quantity_by_name(&ledger, "b"), Some(3));
    assert_eq!(get_resource_quantity_by_name(&ledger, "z"), Some(-2));
}

#[test]
fn each_cost_is_met_exactly_when_costs_draw_on_different_rows() {
    let mut team = team_with(
        &[("bank", 1)],
        &[("gold", "metal", 4), ("silver", "currency", 2), ("coins", "currency", 2)],
    );
    upgrade_building(&mut team, &config(), "bank").unwrap();
    assert_eq!(get_resource_quantity_by_category(&team.resources, "currency"), 1);
    assert_eq!(quantity(&team, "gold"), Some(3));
    assert_eq!(quantity(&team, "silver"), Some(0));
    assert_eq!(quantity(&team, "coins"), Some(1));
}

#[test]
fn a_category_spent_by_an_earlier_cost_fails_the_whole_upgrade() {
    let mut ledger = Ledger::new();
    insert_new_resource(&mut ledger, "gold", "currency", 10);
    let costs = vec![
        UpgradeCost::Resource("gold".to_string(), 8),
        UpgradeCost::Category("currency".to_string(), 5),
    ];
    assert!(shortfalls(&ledger, &costs).is_empty());
    match pay(&ledger, &costs) {
        Err(UpgradeError::CategoryDeductionFailed(category)) => assert_eq!(category, "currency"),
        other => panic!("unexpected result {:?}", other),
    }
    assert_eq!(get_resource_quantity_by_name(&ledger, "gold"), Some(10));
}

#[test]
fn two_costs_on_one_resource_are_both_taken() {
    let mut team = team_with(&[("bank", 2)], &[("gold", "metal", 7)]);
    let outcome = upgrade_building(&mut team, &config(), "bank").unwrap();
    assert_eq!(outcome.level, 3);
    assert_eq!(quantity(&team, "gold"), Some(-3));
}

#[test]
fn a_quantity_below_what_a_row_holds_fails_the_payment() {
    let mut ledger = Ledger::new();
    insert_new_resource(&mut ledger, "debt", "x", i64::MIN);
    match pay(&ledger, &vec![UpgradeCost::Resource("debt".to_string(), 1)]) {
        Err(UpgradeError::LedgerLimit) => {}
        other => panic!("unexpected result {:?}", other),
    }
}

#[test]
fn upgrade_errors_say_why() {
    let config = config();
    let mut team = team_with(&[("townhall", 9), ("shed", 0)], &[]);
    assert!(matches!(
        upgrade_building(&mut team, &config, "castle"),
        Err(UpgradeError::UnknownBuilding)
    ));
    assert!(matches!(
        upgrade_building(&mut team, &config, "townhall"),
        Err(UpgradeError::AlreadyMaxed)
    ));
    assert!(matches!(
        upgrade_building(&mut team, &config, "shed"),
        Err(UpgradeError::NoCostDefined)
    ));
    let mut bare = Team::new(2, "bare", 1, &TownConfig { assets: StrMap::new(), resources: StrMap::new() }).unwrap();
    assert!(matches!(
        upgrade_building(&mut bare, &config, "townhall"),
        Err(UpgradeError::BuildingMissing)
    ));
    assert_eq!(level(&team, "townhall"), Some(9));
}

#[test]
fn shortfalls_list_every_cost_that_is_not_met() {
    let mut ledger = Ledger::new();
    insert_new_resource(&mut ledger, "gold", "currency", 10);
    insert_new_resource(&mut ledger, "silver", "currency", 5);
    let costs = vec![
        UpgradeCost::Resource("gold".to_string(), 11),
        UpgradeCost::Resource("silver".to_string(), 5),
        UpgradeCost::Category("currency".to_string(), 16),
        UpgradeCost::Resource("wood".to_string(), 1),
        UpgradeCost::Resource("air".to_string(), 0),
    ];
    let lacks = shortfalls(&ledger, &costs);
    let available_amounts: Vec<i128> = lacks.iter().map(|l| l.available).collect();
    assert_eq!(available_amounts, vec![10, 15, 0]);
    assert_eq!(available(&ledger, &costs[1]), 5);
}

#[test]
fn levels_stay_between_start_and_maximum() {
    let config = config();
    let mut team = team_with(&[], &[("wood", "logs", 1000)]);
    let mut steps = 0;
    while upgrade_building(&mut team, &config, "townhall").is_ok() {
        steps += 1;
        let l = level(&team, "townhall").unwrap();
        assert!(1 <= l && l <= 9);
    }
    assert_eq!(steps, 3);
    while force_upgrade_building(&mut team, &config, "townhall").is_ok() {
        let l = level(&team, "townhall").unwrap();
        assert!(1 <= l && l <= 9);
    }
    assert_eq!(level(&team, "townhall"), Some(9));
    while downgrade_building(&mut team, &config, "townhall").is_ok() {
        let l = level(&team, "townhall").unwrap();
        assert!(1 <= l && l <= 9);
    }
    assert_eq!(level(&team, "townhall"), Some(1));
}

#[test]
fn downgrade_lowers_the_level_and_pays_nothing_back() {
    let config = config();
    let mut team = team_with(&[("townhall", 4)], &[("wood", "logs", 5)]);
    let outcome = downgrade_building(&mut team, &config, "Townhall").unwrap();
    assert_eq!(outcome.level, 3);
    assert!(outcome.costs.is_empty());
    assert_eq!(level(&team, "townhall"), Some(3));
    assert_eq!(quantity(&team, "wood"), Some(5));
    let mut low = team_with(&[("townhall", 1)], &[]);
    assert!(matches!(
        downgrade_building(&mut low, &config, "townhall"),
        Err(UpgradeError::AlreadyAtMinimum)
    ));
    assert!(matches!(
        downgrade_building(&mut low, &config, "castle"),
        Err(UpgradeError::UnknownBuilding)
    ));
    assert_eq!(level(&low, "townhall"), Some(1));
}

#[test]
fn forced_upgrade_raises_the_level_without_payment() {
    let config = config();
    let mut team = team_with(&[("townhall", 3)], &[("wood", "logs", 5)]);
    let outcome = force_upgrade_building(&mut team, &config, "townhall").unwrap();
    assert_eq!(outcome.level, 4);
    assert_eq!(level(&team, "townhall"), Some(4));
    assert_eq!(quantity(&team, "wood"), Some(5));
    let mut top = team_with(&[("shed", 2)], &[]);
    assert!(matches!(
        force_upgrade_building(&mut top, &config, "shed"),
        Err(UpgradeError::AlreadyMaxed)
    ));
}

#[test]
fn an_upgrade_that_fails_while_paying_changes_nothing() {
    let mut team = team_with(&[], &[("gold", "currency", 10), ("wood", "logs", 1)]);
    match upgrade_building(&mut team, &config(), "vault") {
        Err(UpgradeError::CategoryDeductionFailed(category)) => assert_eq!(category, "currency"),
        other => panic!("unexpected result {:?}", other),
    }
    assert_eq!(quantity(&team, "gold"), Some(10));
    assert_eq!(quantity(&team, "wood"), Some(1));
    assert_eq!(level(&team, "vault"), Some(0));
}

#[test]
fn richer_rows_are_emptied_before_a_poorer_row_gives() {
    let mut ledger = Ledger::new();
    insert_new_resource(&mut ledger, "tin", "ore", 3);
    insert_new_resource(&mut ledger, "iron", "ore", 10);
    insert_new_resource(&mut ledger, "oak", "logs", 50);
    insert_new_resource(&mut ledger, "coal", "ore", 7);
    insert_new_resource(&mut ledger, "slag", "ore", 0);
    let left = pay(&ledger, &vec![UpgradeCost::Category("ore".to_string(), 12)]).unwrap();
    assert_eq!(left, vec![3, 0, 50, 5, 0]);
    let all = pay(&ledger, &vec![UpgradeCost::Category("ore".to_string(), 20)]).unwrap();
    assert_eq!(all, vec![0, 0, 50, 0, 0]);
    let none = pay(&ledger, &vec![UpgradeCost::Category("ore".to_string(), 0)]).unwrap();
    assert_eq!(none, vec![3, 10, 50, 7, 0]);
    assert!(matches!(
        pay(&ledger, &vec![UpgradeCost::Category("ore".to_string(), 21)]),
        Err(UpgradeError::CategoryDeductionFailed(_))
    ));
}

#[test]
fn a_cost_that_stands_apart_is_met_exactly_beside_costs_that_overlap() {
    let mut ledger = Ledger::new();
    insert_new_resource(&mut ledger, "gold", "metal", 10);
    insert_new_resource(&mut ledger, "coins", "currency", 4);
    insert_new_resource(&mut ledger, "notes", "currency", 9);
    let costs = vec![
        UpgradeCost::Resource("gold".to_string(), 2),
        UpgradeCost::Category("currency".to_string(), 11),
        UpgradeCost::Resource("gold".to_string(), 3),
    ];
    assert!(shortfalls(&ledger, &costs).is_empty());
    let left = pay(&ledger, &costs).unwrap();
    assert_eq!(left, vec![5, 2, 0]);
    settle(&mut ledger, &left);
    assert_eq!(get_resource_quantity_by_category(&ledger, "currency"), 13 - 11);
}
