use tabby_zj::assoc::AssocMap;
use tabby_zj::config::{GroupConfig, ThemeConfig};
use tabby_zj::grouping::{assign_groups, fill_theme, theme_base};
use tabby_zj::state::{TabEntry, TabKey};

fn make_tab(name: &str, position: usize) -> TabEntry {
    TabEntry {
        position,
        name: name.to_string(),
        active: false,
        panes: vec![],
    }
}

fn make_group(name: &str, pattern: &str) -> GroupConfig {
    GroupConfig {
        name: name.to_string(),
        pattern: pattern.to_string(),
        working_dir: None,
        theme: ThemeConfig::default(),
    }
}

#[test]
fn test_pattern_match_assigns_tab() {
    let tabs = vec![make_tab("FE|dashboard", 0)];
    let groups = vec![make_group("Frontend", r"^FE\|")];
    let result = assign_groups(&tabs, &groups, &AssocMap::new(), &AssocMap::new(), false, "index");
    let frontend = result.iter().find(|g| g.group_name == "Frontend");
    assert!(frontend.is_some(), "Frontend group should exist");
    assert_eq!(frontend.unwrap().tabs.len(), 1);
}

#[test]
fn test_manual_override_beats_pattern() {
    let tabs = vec![make_tab("FE|dashboard", 0)];
    let groups = vec![
        make_group("Frontend", r"^FE\|"),
        make_group("Backend", r"^BE\|"),
    ];
    let mut manual = AssocMap::new();
    manual.insert(TabKey::new("FE|dashboard", 0), "Backend".to_string());
    let result = assign_groups(&tabs, &groups, &manual, &AssocMap::new(), true, "index");
    let backend = result.iter().find(|g| g.group_name == "Backend");
    assert_eq!(backend.unwrap().tabs.len(), 1);
    let frontend = result.iter().find(|g| g.group_name == "Frontend");
    assert_eq!(frontend.unwrap().tabs.len(), 0);
}

#[test]
fn test_unmatched_tab_goes_to_default() {
    let tabs = vec![make_tab("random-tab", 0)];
    let groups = vec![make_group("Frontend", r"^FE\|")];
    let result = assign_groups(&tabs, &groups, &AssocMap::new(), &AssocMap::new(), false, "index");
    let default_group = result.iter().find(|g| g.group_name == "Default");
    assert!(default_group.is_some());
    assert_eq!(default_group.unwrap().tabs.len(), 1);
}

#[test]
fn test_default_group_ordered_first() {
    let tabs = vec![make_tab("FE|x", 0), make_tab("BE|y", 1), make_tab("other", 2)];
    let groups = vec![
        make_group("Frontend", r"^FE\|"),
        make_group("Backend", r"^BE\|"),
    ];
    let result = assign_groups(&tabs, &groups, &AssocMap::new(), &AssocMap::new(), false, "index");
    assert_eq!(result[0].group_name, "Default", "Default should come first");
}

#[test]
fn test_configured_groups_sorted_alphabetically() {
    let tabs = vec![make_tab("FE|x", 0), make_tab("BE|y", 1)];
    let groups = vec![
        make_group("Frontend", r"^FE\|"),
        make_group("Backend", r"^BE\|"),
    ];
    let result = assign_groups(&tabs, &groups, &AssocMap::new(), &AssocMap::new(), false, "index");
    let non_default: Vec<&str> = result
        .iter()
        .map(|g| g.group_name.as_str())
        .filter(|n| *n != "Default")
        .collect();
    assert_eq!(non_default, vec!["Backend", "Frontend"]);
}

#[test]
fn test_collapsed_group_flagged() {
    let tabs = vec![make_tab("FE|x", 0)];
    let groups = vec![make_group("Frontend", r"^FE\|")];
    let mut collapsed = AssocMap::new();
    collapsed.insert("Frontend".to_string(), ());
    let result = assign_groups(&tabs, &groups, &AssocMap::new(), &collapsed, false, "index");
    let frontend = result.iter().find(|g| g.group_name == "Frontend").unwrap();
    assert!(frontend.collapsed);
}

#[test]
fn test_empty_groups_hidden_by_default() {
    let tabs = vec![make_tab("FE|x", 0)];
    let groups = vec![
        make_group("Frontend", r"^FE\|"),
        make_group("Backend", r"^BE\|"),
    ];
    let result = assign_groups(&tabs, &groups, &AssocMap::new(), &AssocMap::new(), false, "index");
    assert!(
        result.iter().all(|g| g.group_name != "Backend"),
        "Backend (empty) should be hidden when show_empty=false"
    );
}

#[test]
fn test_empty_groups_shown_when_configured() {
    let tabs = vec![];
    let groups = vec![make_group("Frontend", r"^FE\|")];
    let result = assign_groups(&tabs, &groups, &AssocMap::new(), &AssocMap::new(), true, "index");
    assert!(
        result.iter().any(|g| g.group_name == "Frontend"),
        "Frontend should appear when show_empty=true"
    );
}

#[test]
fn invalid_and_empty_patterns_match_nothing_and_first_match_wins() {
    let tabs = vec![make_tab("abc", 0), make_tab("xyz", 1)];
    let groups = vec![
        make_group("Broken", "("),
        make_group("Empty", ""),
        make_group("Zed", "x"),
        make_group("Any", "."),
    ];
    let result = assign_groups(&tabs, &groups, &AssocMap::new(), &AssocMap::new(), false, "index");
    let names: Vec<&str> = result.iter().map(|g| g.group_name.as_str()).collect();
    assert_eq!(names, vec!["Any", "Zed"]);
    assert_eq!(result[0].tabs[0].name, "abc");
    assert_eq!(result[1].tabs[0].name, "xyz");
}

#[test]
fn duplicate_group_names_and_default_config() {
    let tabs = vec![make_tab("a1", 0), make_tab("b2", 1)];
    let mut themed = make_group("Default", "a");
    themed.theme.bg = "#123456".to_string();
    let groups = vec![themed, make_group("B", "b"), make_group("B", "2")];
    let result = assign_groups(&tabs, &groups, &AssocMap::new(), &AssocMap::new(), true, "index");
    let names: Vec<&str> = result.iter().map(|g| g.group_name.as_str()).collect();
    assert_eq!(names, vec!["Default", "B", "B"]);
    assert_eq!(result[0].tabs.len(), 1);
    assert_eq!(result[0].theme.bg, "#3c3836");
    assert_eq!(result[1].tabs.len(), 1);
    assert_eq!(result[2].tabs.len(), 0);
}

#[test]
fn manual_group_that_is_not_configured_drops_the_tab() {
    let tabs = vec![make_tab("t", 3)];
    let mut manual = AssocMap::new();
    manual.insert(TabKey::new("t", 3), "Ghost".to_string());
    let result = assign_groups(&tabs, &[], &manual, &AssocMap::new(), false, "index");
    assert!(result.is_empty());
}

#[test]
fn theme_base_falls_back_to_palette_by_index() {
    let mut theme = ThemeConfig::default();
    theme.bg = String::new();
    assert_eq!(theme_base(&theme, 0), "#3498db");
    assert_eq!(theme_base(&theme, 1), "#2ecc71");
    assert_eq!(theme_base(&theme, 12), "#3498db");
}

#[test]
fn theme_base_keeps_own_background() {
    let mut theme = ThemeConfig::default();
    theme.bg = "#101010".to_string();
    assert_eq!(theme_base(&theme, 3), "#101010");
}

#[test]
fn fill_theme_keeps_what_is_set() {
    let theme = ThemeConfig {
        bg: "#101010".to_string(),
        fg: "#eeeeee".to_string(),
        active_bg: Some("#202020".to_string()),
        active_fg: None,
        icon: Some("*".to_string()),
    };
    let filled = fill_theme(
        &theme,
        "#111111".to_string(),
        "#000000".to_string(),
        "#333333".to_string(),
        "#ffffff".to_string(),
    );
    assert_eq!(filled.bg, "#111111");
    assert_eq!(filled.fg, "#eeeeee");
    assert_eq!(filled.active_bg.as_deref(), Some("#202020"));
    assert_eq!(filled.active_fg.as_deref(), Some("#ffffff"));
    assert_eq!(filled.icon.as_deref(), Some("*"));
}

#[test]
fn fill_theme_fills_empty_text_colour() {
    let mut theme = ThemeConfig::default();
    theme.fg = String::new();
    let filled = fill_theme(
        &theme,
        "#111111".to_string(),
        "#000000".to_string(),
        "#333333".to_string(),
        "#ffffff".to_string(),
    );
    assert_eq!(filled.fg, "#000000");
    assert_eq!(filled.active_bg.as_deref(), Some("#333333"));
    assert_eq!(filled.icon, None);
}
