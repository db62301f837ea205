use clanwars::bestiary::{init_bestiary, Bestiary};

const BESTIARY: &str = "Name\tMembers\tHitpoints\tCombat level\tAttack\n\
Chicken\tNo\t3\t1\tCrush\n\
Green dragon\tNo\t75\t79\tSlash\n\
Green dragon\tYes\t75\t88\tSlash\n\
Kurask\tYes\t97\t106\tCrush\n\
King kurask - superior\tYes\t420\t295\tCrush\n\
Goblin (level 2)\tNo\t5\t2\tCrush\n\
Broken row\tNo\t5\n\
Ghost\tNo\t20\tnineteen\tCrush\n";

const SLAYER: &str = "Level\tMonster\tLocation\tA\tB\tC\tSuperior\tAlternative\n\
70\tKurasks\tFremennik Slayer Dungeon\ta\tb\tc\tKing kurask\tN/A\n\
1\tCrawling hands\tSlayer Tower\ta\tb\tc\tCrushing hand\tN/A\n\
5|Crawling Hand|Slayer Tower|a|b|c|Crushing hand, Mighty hand , |Zombie hand,N/A\n\
x\tBanshees\tSlayer Tower\n\
15\tBanshees\n\
15\tBanshees\tSlayer Tower\ta\tb\tc\tN/A\n";

#[test]
fn test_load_bestiary() {
    let bestiary = init_bestiary(BESTIARY, SLAYER);

    // Check that we have monsters loaded
    assert!(bestiary.count() > 0, "No monsters loaded in bestiary");

    // Check a specific monster
    let chicken_level = bestiary.get_combat_level("Chicken");
    assert_eq!(chicken_level, Some(1), "Chicken should be combat level 1");

    let dragon_level = bestiary.get_combat_level("Green dragon");
    assert_eq!(
        dragon_level,
        Some(79),
        "Green dragon should be combat level 79"
    );

    let kurask_level = bestiary.get_combat_level("Kurask");
    assert_eq!(kurask_level, Some(106), "Kurask should be combat level 106");

    // Check slayer levels
    let kurask_slayer_level = bestiary.get_slayer_level("Kurask");
    assert_eq!(
        kurask_slayer_level,
        Some(70),
        "Kurask should require slayer level 70"
    );

    let king_kurask_slayer_level = bestiary.get_slayer_level("King kurask");
    assert_eq!(
        king_kurask_slayer_level,
        Some(70),
        "King kurask should require slayer level 70"
    );
}

#[test]
fn a_new_bestiary_knows_no_monster() {
    let bestiary = Bestiary::new();
    assert_eq!(bestiary.count(), 0);
    assert_eq!(bestiary.get_combat_level("Chicken"), None);
    assert_eq!(bestiary.get_slayer_level("Kurask"), None);
    assert!(bestiary.search_monsters("").is_empty());
}

#[test]
fn loading_cleans_names_and_keeps_the_first_level() {
    let bestiary = Bestiary::load_from_text(BESTIARY, SLAYER);
    assert_eq!(bestiary.count(), 5);
    assert_eq!(bestiary.get_combat_level("King kurask"), Some(295));
    assert_eq!(bestiary.get_combat_level("Goblin"), Some(2));
    assert_eq!(bestiary.get_combat_level("Broken row"), None);
    assert_eq!(bestiary.get_combat_level("Ghost"), None);
    assert_eq!(bestiary.get_combat_level("Name"), None);
    assert_eq!(bestiary.get_combat_level("chicken"), None);
}

#[test]
fn loading_reads_slayer_levels_with_their_forms() {
    let bestiary = Bestiary::load_from_text(BESTIARY, SLAYER);
    assert_eq!(bestiary.get_slayer_level("Crawling hand"), None);
    assert_eq!(bestiary.get_slayer_level("Crawling Hand"), Some(5));
    assert_eq!(bestiary.get_slayer_level("Crushing hand"), Some(5));
    assert_eq!(bestiary.get_slayer_level("Mighty hand"), Some(5));
    assert_eq!(bestiary.get_slayer_level("Zombie hand"), Some(5));
    assert_eq!(bestiary.get_slayer_level("N/A"), None);
    assert_eq!(bestiary.get_slayer_level(""), None);
    assert_eq!(bestiary.get_slayer_level("Banshee"), Some(15));
    assert_eq!(bestiary.get_slayer_level("Banshees"), None);
    assert_eq!(bestiary.get_slayer_level("Monster"), None);
}

#[test]
fn empty_lists_give_an_empty_bestiary() {
    let bestiary = init_bestiary("", "");
    assert_eq!(bestiary.count(), 0);
    let only_headings = init_bestiary("Name\ta\tb\t1\n", "70\tKurasks\tx\n");
    assert_eq!(only_headings.count(), 0);
    assert_eq!(only_headings.get_slayer_level("Kurask"), None);
}

#[test]
fn monsters_are_found_by_level_range() {
    let bestiary = Bestiary::load_from_text(BESTIARY, SLAYER);
    let found = bestiary.get_monsters_in_level_range(2, 106);
    let names: Vec<&str> = found.iter().map(|(n, _)| n.as_str()).collect();
    assert_eq!(names, vec!["Green dragon", "Kurask", "Goblin"]);
    let levels: Vec<u32> = found.iter().map(|(_, l)| *l).collect();
    assert_eq!(levels, vec![79, 106, 2]);
    assert!(bestiary.get_monsters_in_level_range(3, 2).is_empty());
}

#[test]
fn monsters_are_found_by_slayer_level() {
    let bestiary = Bestiary::load_from_text(BESTIARY, SLAYER);
    let found = bestiary.get_monsters_by_slayer_level(70);
    let names: Vec<&str> = found.iter().map(|(n, _)| n.as_str()).collect();
    assert_eq!(names, vec!["Kurask", "King kurask"]);
    assert!(bestiary.get_monsters_by_slayer_level(71).is_empty());
}

#[test]
fn search_ignores_case() {
    let bestiary = Bestiary::load_from_text(BESTIARY, SLAYER);
    let found = bestiary.search_monsters("KURASK");
    let names: Vec<&str> = found.iter().map(|(n, _)| n.as_str()).collect();
    assert_eq!(names, vec!["Kurask", "King kurask"]);
    assert_eq!(bestiary.search_monsters("").len(), 5);
    assert!(bestiary.search_monsters("kuraski").is_empty());
}
