use tabby_zj::assoc::AssocMap;
use tabby_zj::persistence::{keys_from_text, keys_to_text, PersistedState};
use tabby_zj::state::{PluginState, TabKey};

#[test]
fn saved_state_writes_keys_as_text() {
    let mut state = PluginState::default();
    state.group_assignments.insert(TabKey::new("api", 0), "Backend".to_string());
    state.collapsed_groups.insert("Frontend".to_string(), ());
    state.custom_colors.insert(TabKey::new("web", 1), "#e74c3c".to_string());
    state.markers.insert(TabKey::new("api", 0), "🚀".to_string());
    state.sidebar_collapsed = true;
    let p = PersistedState::from_state(&state);
    assert_eq!(p.group_assignments.get(&"api::0".to_string()), Some(&"Backend".to_string()));
    assert!(p.collapsed_groups.contains_key(&"Frontend".to_string()));
    assert_eq!(p.custom_colors.get(&"web::1".to_string()), Some(&"#e74c3c".to_string()));
    assert_eq!(p.markers.get(&"api::0".to_string()), Some(&"🚀".to_string()));
    assert!(p.sidebar_collapsed);
}

#[test]
fn save_then_restore_gives_the_state_back() {
    let mut state = PluginState::default();
    state.group_assignments.insert(TabKey::new("a::b", 7), "G".to_string());
    state.group_assignments.insert(TabKey::new("c", 2), "H".to_string());
    state.markers.insert(TabKey::new("c", 2), "x".to_string());
    state.sidebar_collapsed = true;
    let p = PersistedState::from_state(&state);
    let mut fresh = PluginState::default();
    fresh.restore_persisted(p);
    assert_eq!(fresh.group_assignments.get(&TabKey::new("a::b", 7)), Some(&"G".to_string()));
    assert_eq!(fresh.group_assignments.get(&TabKey::new("c", 2)), Some(&"H".to_string()));
    assert_eq!(fresh.markers.get(&TabKey::new("c", 2)), Some(&"x".to_string()));
    assert!(fresh.custom_colors.entries.is_empty());
    assert!(fresh.sidebar_collapsed);
}

#[test]
fn restoring_drops_keys_that_do_not_read_and_first_text_wins() {
    let mut m = AssocMap::new();
    m.insert("nokey".to_string(), "x".to_string());
    m.insert("t::05".to_string(), "first".to_string());
    m.insert("t::5".to_string(), "second".to_string());
    let r = keys_from_text(&m);
    assert_eq!(r.entries.len(), 1);
    assert_eq!(r.get(&TabKey::new("t", 5)), Some(&"first".to_string()));
    let back = keys_to_text(&r);
    assert_eq!(back.get(&"t::5".to_string()), Some(&"first".to_string()));
}

#[test]
fn default_persisted_state_is_empty() {
    let p = PersistedState::default();
    assert!(p.group_assignments.entries.is_empty());
    assert!(p.collapsed_groups.entries.is_empty());
    assert!(!p.sidebar_collapsed);
}
