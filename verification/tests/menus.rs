use tabby_zj::menus::{
    build_group_menu, build_menu_for_target, build_pane_menu, build_tab_menu, execute_action,
    MenuAction,
};
use tabby_zj::state::{HostAction, MenuTarget, PluginState, RenameTarget, TabEntry, TabKey};

fn exec_t(state: &mut PluginState, action: MenuAction) -> Vec<HostAction> {
    let mut fx: Vec<HostAction> = Vec::new();
    execute_action(state, action, &mut fx);
    fx
}
fn make_state() -> PluginState {
    PluginState::default()
}

fn make_state_with_tab(name: &str, pos: usize) -> PluginState {
    let mut s = make_state();
    s.tab_entries = vec![TabEntry {
        position: pos,
        name: name.into(),
        active: false,
        panes: vec![],
    }];
    s
}

#[test]
fn test_build_tab_menu_has_switch_and_close() {
    let items = build_tab_menu(2, &[]);
    assert!(items
        .iter()
        .any(|i| matches!(i.action, MenuAction::SwitchTab(2))));
    assert!(items
        .iter()
        .any(|i| matches!(i.action, MenuAction::CloseTab(2))));
}

#[test]
fn test_build_pane_menu_has_focus_and_close() {
    let items = build_pane_menu(42);
    assert!(items
        .iter()
        .any(|i| matches!(i.action, MenuAction::FocusPane(42))));
    assert!(items
        .iter()
        .any(|i| matches!(i.action, MenuAction::ClosePane(42))));
}

#[test]
fn test_build_group_menu_has_toggle_and_rename() {
    let items = build_group_menu("Backend");
    assert!(items
        .iter()
        .any(|i| matches!(&i.action, MenuAction::ToggleGroup(n) if n == "Backend")));
    assert!(items
        .iter()
        .any(|i| matches!(&i.action, MenuAction::RenameGroup(n) if n == "Backend")));
}

#[test]
fn test_execute_toggle_group_collapses() {
    let mut state = make_state();
    exec_t(&mut state, MenuAction::ToggleGroup("Frontend".into()));
    assert!(state.collapsed_groups.contains_key(&"Frontend".to_string()));
    assert!(state.active_menu.is_none());
}

#[test]
fn test_execute_toggle_group_expands() {
    let mut state = make_state();
    state.collapsed_groups.insert("Frontend".into(), ());
    exec_t(&mut state, MenuAction::ToggleGroup("Frontend".into()));
    assert!(!state.collapsed_groups.contains_key(&"Frontend".to_string()));
}

#[test]
fn test_execute_move_to_group_assigns() {
    let mut state = make_state_with_tab("api", 0);
    exec_t(&mut state, MenuAction::MoveToGroup(0, "Backend".into()));
    assert_eq!(
        state.group_assignments.get(&TabKey::new("api", 0)),
        Some(&"Backend".into())
    );
}

#[test]
fn test_execute_rename_tab_sets_state() {
    let mut state = make_state();
    exec_t(&mut state, MenuAction::RenameTab(1));
    assert!(matches!(
        state.rename_state.as_ref().map(|r| &r.target),
        Some(RenameTarget::Tab(1))
    ));
}

#[test]
fn test_execute_rename_group_prefills_buffer() {
    let mut state = make_state();
    exec_t(&mut state, MenuAction::RenameGroup("Frontend".into()));
    let rs = state.rename_state.as_ref().unwrap();
    assert!(matches!(&rs.target, RenameTarget::Group(n) if n == "Frontend"));
    assert_eq!(rs.buffer, "Frontend");
}

#[test]
fn test_execute_clears_active_menu() {
    let mut state = make_state();
    state.active_menu = Some(tabby_zj::state::MenuState::default());
    exec_t(&mut state, MenuAction::Noop);
    assert!(state.active_menu.is_none());
}

#[test]
fn test_separators_are_not_selectable() {
    let items = build_tab_menu(0, &[]);
    let seps: Vec<_> = items.iter().filter(|i| i.is_separator).collect();
    assert!(
        !seps.is_empty(),
        "tab menu should have at least one separator"
    );
    for sep in seps {
        assert!(sep.label.is_empty(), "separator should have empty label");
    }
}

#[test]
fn test_build_tab_menu_no_groups_no_move_items() {
    let items = build_tab_menu(3, &[]);
    let move_items: Vec<_> = items
        .iter()
        .filter(|i| matches!(&i.action, MenuAction::MoveToGroup(_, _)))
        .collect();
    assert!(
        move_items.is_empty(),
        "no group names → no MoveToGroup items"
    );
}

#[test]
fn test_build_tab_menu_with_groups_emits_move_items() {
    let groups = vec!["Frontend".to_string(), "Backend".to_string()];
    let items = build_tab_menu(1, &groups);
    let submenu = items
        .iter()
        .find(
            |i| matches!(&i.action, MenuAction::Submenu(label, _) if label == "Move to Group"),
        )
        .expect("should have Move to Group submenu");
    let sub_items = match &submenu.action {
        MenuAction::Submenu(_, sub_items) => sub_items,
        _ => panic!("expected submenu"),
    };
    assert_eq!(sub_items.len(), 2, "should have one MoveToGroup per group");
    assert!(sub_items
        .iter()
        .any(|i| matches!(&i.action, MenuAction::MoveToGroup(1, n) if n == "Frontend")));
    assert!(sub_items
        .iter()
        .any(|i| matches!(&i.action, MenuAction::MoveToGroup(1, n) if n == "Backend")));
}

#[test]
fn test_build_tab_menu_move_items_have_arrow_label() {
    let groups = vec!["Infra".to_string()];
    let items = build_tab_menu(0, &groups);
    let submenu = items
        .iter()
        .find(
            |i| matches!(&i.action, MenuAction::Submenu(label, _) if label == "Move to Group"),
        )
        .expect("should have Move to Group submenu");
    let sub_items = match &submenu.action {
        MenuAction::Submenu(_, sub_items) => sub_items,
        _ => panic!("expected submenu"),
    };
    let move_item = sub_items
        .iter()
        .find(|i| matches!(&i.action, MenuAction::MoveToGroup(_, _)))
        .expect("submenu should have a MoveToGroup item");
    assert!(
        move_item.label.contains("Infra"),
        "MoveToGroup label should contain group name"
    );
    assert!(
        move_item.label.contains('→'),
        "MoveToGroup label should have arrow indicator"
    );
}

#[test]
fn test_build_tab_menu_with_groups_still_has_close() {
    let groups = vec!["Frontend".to_string()];
    let items = build_tab_menu(2, &groups);
    assert!(
        items
            .iter()
            .any(|i| matches!(i.action, MenuAction::CloseTab(2))),
        "CloseTab should still be present when groups are provided"
    );
}

#[test]
fn test_build_menu_for_target_tab_passes_groups() {
    let groups = vec!["Ops".to_string()];
    let items = build_menu_for_target(&MenuTarget::Tab(5), &groups);
    let submenu = items
        .iter()
        .find(
            |i| matches!(&i.action, MenuAction::Submenu(label, _) if label == "Move to Group"),
        )
        .expect("build_menu_for_target should produce Move to Group submenu");
    let sub_items = match &submenu.action {
        MenuAction::Submenu(_, sub_items) => sub_items,
        _ => panic!("expected submenu"),
    };
    assert!(
        sub_items
            .iter()
            .any(|i| matches!(&i.action, MenuAction::MoveToGroup(5, n) if n == "Ops")),
        "submenu should contain MoveToGroup item forwarded from group_names"
    );
}

#[test]
fn test_build_menu_for_target_pane_ignores_groups() {
    let groups = vec!["Frontend".to_string()];
    let items = build_menu_for_target(&MenuTarget::Pane(99), &groups);
    assert!(
        items
            .iter()
            .any(|i| matches!(i.action, MenuAction::FocusPane(99))),
        "pane menu should still have FocusPane"
    );
    assert!(
        items
            .iter()
            .all(|i| !matches!(&i.action, MenuAction::MoveToGroup(_, _))),
        "pane menu should not have MoveToGroup items"
    );
}

#[test]
fn test_build_tab_menu_always_has_set_color_submenu() {
    let items = build_tab_menu(0, &[]);
    let submenu = items
        .iter()
        .find(|i| matches!(&i.action, MenuAction::Submenu(label, _) if label == "Set Color"))
        .expect("tab menu should always have Set Color submenu");
    let sub_items = match &submenu.action {
        MenuAction::Submenu(_, sub_items) => sub_items,
        _ => panic!("expected submenu"),
    };
    assert_eq!(
        sub_items.len(),
        9,
        "Set Color submenu should have 9 color options"
    );
    assert!(sub_items
        .iter()
        .any(|i| matches!(&i.action, MenuAction::SetColor(0, c) if c == "#e74c3c")));
    assert!(sub_items.iter().any(|i| i.label.contains("Red")));
}

#[test]
fn test_build_tab_menu_set_color_submenu_label_has_indicator() {
    let items = build_tab_menu(3, &[]);
    let submenu = items
        .iter()
        .find(|i| matches!(&i.action, MenuAction::Submenu(label, _) if label == "Set Color"))
        .expect("should have Set Color submenu");
    assert!(
        submenu.label.contains('▶'),
        "Set Color submenu label should have ▶"
    );
}

#[test]
fn test_execute_set_color_inserts_custom_color() {
    let mut state = make_state_with_tab("api", 0);
    exec_t(&mut state, MenuAction::SetColor(0, "#e74c3c".into()));
    assert_eq!(
        state.custom_colors.get(&TabKey::new("api", 0)),
        Some(&"#e74c3c".into()),
        "SetColor should store the color in custom_colors"
    );
}

#[test]
fn test_execute_set_color_clears_active_menu() {
    let mut state = make_state_with_tab("api", 0);
    state.active_menu = Some(tabby_zj::state::MenuState::default());
    exec_t(&mut state, MenuAction::SetColor(0, "#27ae60".into()));
    assert!(state.active_menu.is_none());
}

#[test]
fn test_execute_submenu_is_noop() {
    let mut state = make_state();
    state.active_menu = Some(tabby_zj::state::MenuState::default());
    exec_t(&mut state, MenuAction::Submenu("Test".into(), vec![]));
    assert!(
        state.active_menu.is_none(),
        "execute_action should still clear menu on Submenu"
    );
}

#[test]
fn tab_menu_offers_markers() {
    let items = build_tab_menu(4, &[]);
    let sub = items
        .iter()
        .find(|i| matches!(&i.action, MenuAction::Submenu(t, _) if t == "Set Marker"))
        .expect("tab menu should offer markers");
    assert_eq!(sub.label, "⚑ Set Marker ▶");
    let subs = match &sub.action {
        MenuAction::Submenu(_, s) => s,
        _ => unreachable!(),
    };
    assert_eq!(subs.len(), 5);
    assert!(matches!(&subs[1].action, MenuAction::SetMarker(4, m) if m == "🚀"));
    assert_eq!(items.len(), 8);
    assert!(matches!(items[7].action, MenuAction::CloseTab(4)));
}

#[test]
fn set_marker_marks_the_tab_and_saves() {
    let mut state = make_state_with_tab("api", 0);
    let fx = exec_t(&mut state, MenuAction::SetMarker(0, "🔥".to_string()));
    assert_eq!(state.markers.get(&TabKey::new("api", 0)).map(|s| s.as_str()), Some("🔥"));
    assert!(matches!(fx.as_slice(), [HostAction::SaveState]));
    let mut other = make_state_with_tab("api", 0);
    let fx = exec_t(&mut other, MenuAction::SetMarker(5, "🔥".to_string()));
    assert!(fx.is_empty());
    assert!(other.markers.entries.is_empty());
}

#[test]
fn pane_menu_offers_split() {
    let items = build_pane_menu(7);
    assert_eq!(items.len(), 5);
    assert_eq!(items[3].label, "⊞ Split pane");
    assert!(matches!(items[3].action, MenuAction::SplitPane(7)));
    let mut state = make_state();
    let fx = exec_t(&mut state, MenuAction::SplitPane(7));
    assert!(matches!(fx.as_slice(), [HostAction::SplitPane(7)]));
}

#[test]
fn group_menu_offers_delete() {
    let items = build_group_menu("Backend");
    assert_eq!(items.len(), 6);
    assert!(items[4].is_separator);
    assert!(matches!(&items[5].action, MenuAction::DeleteGroup(n) if n == "Backend"));
}

#[test]
fn delete_group_forgets_its_tabs_and_collapsed_flag() {
    let mut state = make_state();
    state.group_assignments.insert(TabKey::new("api", 0), "Backend".to_string());
    state.group_assignments.insert(TabKey::new("web", 1), "Frontend".to_string());
    state.group_assignments.insert(TabKey::new("db", 2), "Backend".to_string());
    state.collapsed_groups.insert("Backend".to_string(), ());
    state.collapsed_groups.insert("Frontend".to_string(), ());
    let fx = exec_t(&mut state, MenuAction::DeleteGroup("Backend".to_string()));
    assert!(matches!(fx.as_slice(), [HostAction::SaveState]));
    assert!(state.group_assignments.get(&TabKey::new("api", 0)).is_none());
    assert!(state.group_assignments.get(&TabKey::new("db", 2)).is_none());
    assert_eq!(
        state.group_assignments.get(&TabKey::new("web", 1)).map(|s| s.as_str()),
        Some("Frontend")
    );
    assert!(!state.collapsed_groups.contains_key(&"Backend".to_string()));
    assert!(state.collapsed_groups.contains_key(&"Frontend".to_string()));
}
