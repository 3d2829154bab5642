use tabby_zj::state::{PaneInfo, PaneManifest, PluginState, TabInfo, TabKey, TabKeyParseError};
fn make_tab(position: usize, name: &str, active: bool) -> TabInfo {
    TabInfo {
        position,
        name: name.to_string(),
        active,
    }
}

#[test]
fn test_tab_key_format() {
    let state = PluginState::default();
    let tab = make_tab(0, "api", true);
    assert_eq!(state.tab_key(&tab), "api::0");
}

#[test]
fn test_tab_key_unique_positions() {
    let state = PluginState::default();
    let tab1 = make_tab(0, "api", true);
    let tab2 = make_tab(1, "api", false);
    assert_ne!(state.tab_key(&tab1), state.tab_key(&tab2));
}

#[test]
fn test_rebuild_no_tabs() {
    let mut state = PluginState::default();
    state.tabs = vec![];
    state.rebuild_tab_entries();
    assert!(state.tab_entries.is_empty());
}

#[test]
fn test_rebuild_three_tabs() {
    let mut state = PluginState::default();
    state.tabs = vec![
        make_tab(0, "dashboard", false),
        make_tab(1, "api", true),
        make_tab(2, "tests", false),
    ];
    state.rebuild_tab_entries();
    assert_eq!(state.tab_entries.len(), 3);
    assert_eq!(state.tab_entries[0].name, "dashboard");
    assert!(!state.tab_entries[0].active);
    assert_eq!(state.tab_entries[1].name, "api");
    assert!(state.tab_entries[1].active);
}

#[test]
fn test_active_tab_index_tracking() {
    let mut state = PluginState::default();
    state.tabs = vec![
        make_tab(0, "tab1", false),
        make_tab(1, "tab2", false),
        make_tab(2, "tab3", true),
    ];
    state.active_tab_index = state.tabs.iter().position(|t| t.active).unwrap_or(0);
    assert_eq!(state.active_tab_index, 2);
}

#[test]
fn test_terminal_panes_empty_when_no_manifest() {
    let state = PluginState::default();
    let panes = state.terminal_panes_for_tab(0);
    assert!(panes.is_empty());
}

#[test]
fn tab_key_text_and_parse_round_trip() {
    let k = TabKey::new("a::b", 12);
    assert_eq!(k.to_string(), "a::b::12");
    let back = TabKey::parse("a::b::12").unwrap();
    assert_eq!(back.name, "a::b");
    assert_eq!(back.position, 12);
    assert_eq!(TabKey::parse("nocolons").err(), Some(TabKeyParseError));
    assert!(TabKey::parse("x::-1").is_err());
    assert!(TabKey::parse("x::").is_err());
    let p: TabKey = "dev::+3".parse().unwrap();
    assert_eq!(p.position, 3);
}

#[test]
fn rebuild_takes_panes_of_the_manifest_and_keeps_cwds() {
    let mut state = PluginState::default();
    state.tabs = vec![make_tab(0, "t", true)];
    let mut manifest = PaneManifest { panes: tabby_zj::assoc::AssocMap::new() };
    manifest.panes.insert(
        0,
        vec![PaneInfo {
            id: 3,
            is_plugin: false,
            title: "sh".into(),
            is_focused: true,
            is_floating: false,
        }],
    );
    state.pane_manifest = Some(manifest);
    state.pane_cwds.insert(3, std::path::PathBuf::from("/tmp"));
    state.rebuild_tab_entries();
    assert_eq!(state.tab_entries[0].panes.len(), 1);
    assert_eq!(state.tab_entries[0].panes[0].title, "sh");
    assert_eq!(state.tab_entries[0].panes[0].cwd, Some(std::path::PathBuf::from("/tmp")));
    assert_eq!(state.terminal_panes_for_tab(0).len(), 1);
}

#[test]
fn tab_key_parse_error_message() {
    let e = TabKey::parse("no-separator").err().unwrap();
    assert_eq!(e.to_string(), "invalid TabKey format, expected 'name::position'");
}
