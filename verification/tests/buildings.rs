use clanwars::buildings::{
    format_upgrade_cost, format_upgrade_costs, row_cost, BuildingConfig, CostValue, TownConfig,
    UpgradeCost,
};
use clanwars::strmap::StrMap;

fn row(level: u64, key: &str, amount: u64) -> Vec<CostValue> {
    vec![
        CostValue::Number(level),
        CostValue::Text(key.to_string()),
        CostValue::Number(amount),
    ]
}

fn townhall() -> BuildingConfig {
    BuildingConfig {
        name: "Town Hall".to_string(),
        description: "The heart of the town".to_string(),
        starting_level: 1,
        max_level: 9,
        icon: String::new(),
        upgrade_costs: vec![
            row(2, "wood", 50),
            row(4, "wood", 100),
            row(4, "$category:mining", 25),
            vec![CostValue::Number(4), CostValue::Text("short".to_string())],
            vec![CostValue::Text("4".to_string()), CostValue::Text("iron".to_string()), CostValue::Number(1)],
            vec![CostValue::Number(4), CostValue::Other, CostValue::Number(1)],
            vec![CostValue::Number(4), CostValue::Text("iron".to_string()), CostValue::Other],
            row(4, "$category:$category:gems", 4294967295),
            row(4, "gold", 4294967296),
            row(4, "silver", 4294967297),
            row(4294967300, "stone", 1),
        ],
        benefits: Vec::new(),
    }
}

fn init_assets() -> TownConfig {
    let mut assets: StrMap<BuildingConfig> = StrMap::new();
    assets.insert("townhall".to_string(), townhall());
    assets.insert(
        "armory".to_string(),
        BuildingConfig {
            name: "Armory".to_string(),
            description: String::new(),
            starting_level: 0,
            max_level: 5,
            icon: "A".to_string(),
            upgrade_costs: vec![row(1, "iron bar", 10)],
            benefits: Vec::new(),
        },
    );
    TownConfig { assets, resources: StrMap::new() }
}

fn shown(cost: &UpgradeCost) -> (bool, String, u32) {
    match cost {
        UpgradeCost::Resource(name, amount) => (false, name.clone(), *amount),
        UpgradeCost::Category(name, amount) => (true, name.clone(), *amount),
    }
}

#[test]
fn test_load_building_config() {
    let config = init_assets();

    // Check that we have town hall
    assert!(config.assets.contains_key("townhall"));

    // Check town hall properties
    if let Some(townhall) = config.assets.get("townhall") {
        assert_eq!(townhall.name, "Town Hall");
        assert_eq!(townhall.max_level, 9);
    }
}

#[test]
fn test_parse_category_costs() {
    let config = init_assets();

    let costs = config.get_upgrade_costs("townhall", 4);

    let has_category_cost = costs.iter().any(|cost| match cost {
        UpgradeCost::Category(_, _) => true,
        _ => false,
    });

    println!(
        "Category costs detected in townhall level 4: {}",
        has_category_cost
    );
    assert!(has_category_cost);
}

#[test]
fn upgrade_costs_are_the_well_formed_rows_of_the_level() {
    let config = init_assets();
    let costs: Vec<(bool, String, u32)> =
        config.get_upgrade_costs("townhall", 4).iter().map(shown).collect();
    assert_eq!(
        costs,
        vec![
            (false, "wood".to_string(), 100),
            (true, "mining".to_string(), 25),
            (true, "gems".to_string(), 4294967295),
        ]
    );
    assert!(config.get_upgrade_costs("townhall", 3).is_empty());
    assert!(config.get_upgrade_costs("nowhere", 4).is_empty());
    assert_eq!(config.get_upgrade_costs("armory", 1).len(), 1);
}

#[test]
fn a_row_states_a_cost_for_its_own_level_only() {
    assert_eq!(row_cost(&row(4, "wood", 100), 4).as_ref().map(shown), Some((false, "wood".to_string(), 100)));
    assert!(row_cost(&row(4, "wood", 100), 5).is_none());
    assert!(row_cost(&row(4294967300, "wood", 100), 4).is_none());
    assert!(row_cost(&row(4, "wood", 4294967296), 4).is_none());
    assert!(row_cost(&row(4, "wood", 4294967397), 4).is_none());
    assert_eq!(
        row_cost(&row(4, "wood", 4294967295), 4).as_ref().map(shown),
        Some((false, "wood".to_string(), 4294967295))
    );
    assert!(row_cost(&vec![], 0).is_none());
}

#[test]
fn building_types_come_in_the_order_of_the_configuration() {
    assert_eq!(init_assets().get_building_types(), vec!["townhall".to_string(), "armory".to_string()]);
}

#[test]
fn category_keys_are_told_by_their_marker() {
    let config = init_assets();
    assert!(config.is_category_cost("$category:mining"));
    assert!(!config.is_category_cost("mining"));
    assert!(!config.is_category_cost("x$category:mining"));
    assert_eq!(config.extract_category_name("$category:mining"), Some("mining".to_string()));
    assert_eq!(config.extract_category_name("$category:$category:a"), Some("a".to_string()));
    assert_eq!(config.extract_category_name("mining"), None);
}

#[test]
fn costs_are_shown_with_name_and_amount() {
    let costs = vec![
        UpgradeCost::Resource("wood".to_string(), 100),
        UpgradeCost::Category("mining".to_string(), 0),
    ];
    assert_eq!(
        format_upgrade_costs(&costs),
        vec!["`wood`: 100".to_string(), "`mining` (category): 0".to_string()]
    );
    assert_eq!(format_upgrade_cost(&UpgradeCost::Resource("x".to_string(), 4294967295)), "`x`: 4294967295");
    assert!(format_upgrade_costs(&[]).is_empty());
}

#[test]
fn the_map_of_costs_marks_categories() {
    let config = init_assets();
    let costs = config.get_upgrade_costs_map("townhall", 4);
    assert_eq!(costs.len(), 3);
    assert_eq!(costs.get("wood"), Some(&100));
    assert_eq!(costs.get("$category:mining"), Some(&25));
    assert_eq!(costs.get("$category:gems"), Some(&4294967295));
    assert_eq!(costs.get("gold"), None);
    assert_eq!(costs.get("silver"), None);
    assert_eq!(costs.get("mining"), None);
    assert_eq!(config.get_upgrade_costs_map("nowhere", 4).len(), 0);
}
