use clanwars::buildings::TownConfig;
use clanwars::modifiers::{
    calculate_resource_total, get_team_resource_flat_bonus, get_team_resource_multiplier, scale,
    ModifierRow, ModifierTable, Multiplier,
};
use clanwars::strmap::StrMap;
use clanwars::team::Team;

fn row(building: &str, level: u32, category: &str, ratio: (u32, u32), bonus: i32) -> ModifierRow {
    ModifierRow {
        building: building.to_string(),
        level,
        category: category.to_string(),
        multiplier: Multiplier::new(ratio.0, ratio.1).unwrap(),
        flat_bonus: bonus,
    }
}

fn table() -> ModifierTable {
    ModifierTable {
        rows: vec![
            row("mine", 1, "mining", (5, 4), 0),
            row("mine", 2, "mining", (3, 2), 2),
            row("smithy", 1, "mining", (11, 10), 5),
            row("smithy", 1, "mining", (6, 4), -1),
            row("bank", 1, "currency", (2, 1), 0),
        ],
    }
}

fn team(levels: &[(&str, u32)]) -> Team {
    let empty = TownConfig { assets: StrMap::new(), resources: StrMap::new() };
    let mut team = Team::new(1, "alpha", 1, &empty).unwrap();
    for (name, level) in levels {
        team.buildings.insert(name.to_string(), *level);
    }
    team
}

fn ratio(m: Multiplier) -> (u32, u32) {
    (m.numerator(), m.denominator())
}

#[test]
fn scaling_multiplies_rounds_down_and_adds_the_bonus() {
    let one_and_a_half = Multiplier::new(3, 2).unwrap();
    assert_eq!(scale(10, one_and_a_half, 2), 17);
    assert_eq!(scale(15, Multiplier::one(), 0), 15);
    assert_eq!(scale(7, one_and_a_half, 0), 10);
    assert_eq!(scale(1, Multiplier::new(1, 3).unwrap(), -4), -4);
    assert_eq!(scale(0, one_and_a_half, 0), 0);
    assert_eq!(
        scale(u32::MAX, Multiplier::new(u32::MAX, 1).unwrap(), i32::MAX),
        (u32::MAX as i128) * (u32::MAX as i128) + i32::MAX as i128
    );
}

#[test]
fn there_is_no_multiplier_with_the_denominator_zero() {
    assert!(Multiplier::new(1, 0).is_none());
    assert_eq!(ratio(Multiplier::new(0, 7).unwrap()), (0, 7));
    assert_eq!(ratio(Multiplier::one()), (1, 1));
}

#[test]
fn the_greatest_applying_modifiers_count() {
    let t = table();
    let both = team(&[("mine", 2), ("smithy", 1)]);
    assert_eq!(ratio(get_team_resource_multiplier(&t, &both, "mining")), (3, 2));
    assert_eq!(get_team_resource_flat_bonus(&t, &both, "mining"), 5);
    assert_eq!(calculate_resource_total(&t, 10, &both, "mining"), 20);
    let low = team(&[("mine", 1)]);
    assert_eq!(ratio(get_team_resource_multiplier(&t, &low, "mining")), (5, 4));
    assert_eq!(get_team_resource_flat_bonus(&t, &low, "mining"), 0);
    assert_eq!(calculate_resource_total(&t, 10, &low, "mining"), 12);
}

#[test]
fn without_a_modifier_the_quantity_stays() {
    let t = table();
    let none = team(&[("mine", 3)]);
    assert_eq!(ratio(get_team_resource_multiplier(&t, &none, "mining")), (1, 1));
    assert_eq!(get_team_resource_flat_bonus(&t, &none, "mining"), 0);
    assert_eq!(calculate_resource_total(&t, 15, &none, "mining"), 15);
    assert_eq!(calculate_resource_total(&t, 15, &team(&[("bank", 1)]), "mining"), 15);
    assert_eq!(calculate_resource_total(&t, 15, &team(&[("bank", 1)]), "currency"), 30);
}

#[test]
fn a_negative_bonus_alone_is_the_greatest() {
    let t = ModifierTable { rows: vec![row("hut", 0, "wood", (1, 2), -3)] };
    let team = team(&[("hut", 0)]);
    assert_eq!(get_team_resource_flat_bonus(&t, &team, "wood"), -3);
    assert_eq!(calculate_resource_total(&t, 5, &team, "wood"), -1);
}
