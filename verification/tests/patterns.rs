use clanwars::patterns::{
    categorize_resource, category_of_matches, first_matching, get_resource_category, match_all,
    matches_pattern, PatternConfig, ResourcePattern,
};

fn pattern(pattern: &str, category: &str) -> ResourcePattern {
    ResourcePattern { pattern: pattern.to_string(), category: category.to_string() }
}

#[test]
fn test_resource_categorization() {
    let patterns = vec![
        ResourcePattern {
            pattern: "bones".to_string(),
            category: "bone".to_string(),
        },
        ResourcePattern {
            pattern: ".*ore".to_string(),
            category: "mining".to_string(),
        },
        ResourcePattern {
            pattern: ".oins".to_string(),
            category: "currency".to_string(),
        },
        ResourcePattern {
            pattern: ".*".to_string(),
            category: "miscellaneous".to_string(),
        },
    ];

    assert_eq!(get_resource_category("bones", &patterns), "bone");
    assert_eq!(get_resource_category("iron ore", &patterns), "mining");
    assert_eq!(get_resource_category("gold ore", &patterns), "mining");
    assert_eq!(get_resource_category("coins", &patterns), "currency");
    assert_eq!(get_resource_category("wood", &patterns), "miscellaneous");
}

#[test]
fn the_real_expressions_decide() {
    let patterns = vec![pattern("^c.ins$", "currency"), pattern("(", "broken"), pattern("ore", "mining")];
    assert_eq!(match_all("coins", &patterns), vec![Some(true), None, Some(false)]);
    assert_eq!(match_all("iron ore", &patterns), vec![Some(false), None, Some(true)]);
    assert!(matches_pattern("coins", &patterns));
    assert!(matches_pattern("adamantite ore", &patterns));
    assert!(!matches_pattern("coin", &patterns));
    assert!(!matches_pattern("coins", &[]));
    assert!(!matches_pattern("(", &[pattern("(", "broken")]));
}

#[test]
fn the_first_match_gives_the_category() {
    let patterns = vec![pattern("a", "first"), pattern("b", "second"), pattern("c", "third")];
    assert_eq!(first_matching(&vec![Some(false), None, Some(true)]), Some(2));
    assert_eq!(first_matching(&vec![Some(true), Some(true), Some(true)]), Some(0));
    assert_eq!(first_matching(&vec![Some(false), None, Some(false)]), None);
    assert_eq!(first_matching(&vec![]), None);
    assert_eq!(category_of_matches(&vec![Some(false), Some(true), Some(true)], &patterns), "second");
    assert_eq!(category_of_matches(&vec![None, None, None], &patterns), "miscellaneous");
}

#[test]
fn no_match_gives_the_default_category() {
    let config = PatternConfig { resource_pattern: vec![pattern("^bones$", "bone")] };
    assert_eq!(categorize_resource("bones", &config), "bone");
    assert_eq!(categorize_resource("big bones", &config), "miscellaneous");
    assert_eq!(categorize_resource("x", &PatternConfig { resource_pattern: vec![] }), "miscellaneous");
}
