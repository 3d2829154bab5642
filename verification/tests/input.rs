use tabby_zj::assoc::AssocMap;
use tabby_zj::click::{ClickRegion, ClickTarget};
use tabby_zj::indicators::IndicatorState;
use tabby_zj::input::{
    handle_key, handle_mouse, handle_pipe, parse_pipe, BareKey, KeyWithModifier, Mouse,
    PipeCommand, PipeMessage,
};
use tabby_zj::state::{HostAction, MenuState, MenuTarget, PluginState, RenameTarget, TabKey};

fn key_t(state: &mut PluginState, key: KeyWithModifier) -> bool {
    let mut fx: Vec<HostAction> = Vec::new();
    handle_key(state, key, &mut fx)
}

fn mouse_t(state: &mut PluginState, mouse: Mouse) -> bool {
    let mut fx: Vec<HostAction> = Vec::new();
    handle_mouse(state, mouse, &mut fx)
}

fn pipe_t(state: &mut PluginState, msg: PipeMessage) -> bool {
    let mut fx: Vec<HostAction> = Vec::new();
    handle_pipe(state, msg, &mut fx)
}

fn ind(state: &PluginState, key: &str) -> IndicatorState {
    *state.indicators.get(&key.to_string()).expect("indicator present")
}

fn make_pipe(payload: &str) -> PipeMessage {
    PipeMessage {
        payload: Some(payload.into()),
        args: AssocMap::new(),
    }
}

fn make_pipe_with_pane(payload: &str, pane_id: &str) -> PipeMessage {
    let mut args = AssocMap::new();
    args.insert("pane_id".to_string(), pane_id.to_string());
    PipeMessage {
        payload: Some(payload.into()),
        args,
    }
}

fn region(line: usize, target: ClickTarget) -> ClickRegion {
    ClickRegion { line, target }
}

fn sim_left(state: &mut PluginState, line: usize) -> bool {
    mouse_t(state, Mouse::LeftClick(line as isize, 0))
}

fn sim_right(state: &mut PluginState, line: usize) -> bool {
    mouse_t(state, Mouse::RightClick(line as isize, 0))
}

fn make_key(bare: BareKey) -> KeyWithModifier {
    KeyWithModifier::new(bare)
}

fn three_regions() -> Vec<ClickRegion> {
    vec![
        region(0, ClickTarget::Tab(0)),
        region(1, ClickTarget::Tab(1)),
        region(2, ClickTarget::Tab(2)),
    ]
}

#[test]
fn test_key_down_increments_cursor() {
    let mut state = PluginState::default();
    state.click_regions = three_regions();
    state.cursor_position = Some(0);
    key_t(&mut state, make_key(BareKey::Down));
    assert_eq!(state.cursor_position, Some(1));
}

#[test]
fn test_key_up_decrements_cursor() {
    let mut state = PluginState::default();
    state.click_regions = three_regions();
    state.cursor_position = Some(2);
    key_t(&mut state, make_key(BareKey::Up));
    assert_eq!(state.cursor_position, Some(1));
}

#[test]
fn test_key_down_wraps_at_end() {
    let mut state = PluginState::default();
    state.click_regions = three_regions();
    state.cursor_position = Some(2);
    key_t(&mut state, make_key(BareKey::Down));
    assert_eq!(state.cursor_position, Some(0));
}

#[test]
fn test_key_up_wraps_at_start() {
    let mut state = PluginState::default();
    state.click_regions = three_regions();
    state.cursor_position = Some(0);
    key_t(&mut state, make_key(BareKey::Up));
    assert_eq!(state.cursor_position, Some(2));
}

#[test]
fn test_key_j_same_as_down() {
    let mut state = PluginState::default();
    state.click_regions = three_regions();
    state.cursor_position = Some(0);
    key_t(&mut state, make_key(BareKey::Char('j')));
    assert_eq!(state.cursor_position, Some(1));
}

#[test]
fn test_key_k_same_as_up() {
    let mut state = PluginState::default();
    state.click_regions = three_regions();
    state.cursor_position = Some(2);
    key_t(&mut state, make_key(BareKey::Char('k')));
    assert_eq!(state.cursor_position, Some(1));
}

#[test]
fn test_key_enter_dispatches_group_toggle() {
    let mut state = PluginState::default();
    state.click_regions = vec![region(0, ClickTarget::Group("Default".into()))];
    state.cursor_position = Some(0);
    let result = key_t(&mut state, make_key(BareKey::Enter));
    assert!(result);
    assert!(state.collapsed_groups.contains_key(&"Default".to_string()));
}

#[test]
fn test_key_esc_clears_cursor() {
    let mut state = PluginState::default();
    state.click_regions = three_regions();
    state.cursor_position = Some(1);
    let result = key_t(&mut state, make_key(BareKey::Esc));
    assert!(!result, "Esc should return false so Zellij handles focus");
    assert_eq!(state.cursor_position, None);
}

#[test]
fn test_esc_dismisses_menu() {
    let mut state = PluginState::default();
    state.active_menu = Some(MenuState {
        target: MenuTarget::Tab(0),
        selected_index: 0,
        position_line: 0,
        ..Default::default()
    });
    let result = key_t(&mut state, make_key(BareKey::Esc));
    assert!(result, "Esc on open menu should return true");
    assert!(state.active_menu.is_none());
}

#[test]
fn test_cursor_auto_scrolls_down() {
    let mut state = PluginState::default();
    state.click_regions = (0..9).map(|i| region(i, ClickTarget::Tab(i))).collect();
    state.cursor_position = Some(7);
    state.viewport_offset = 0;
    state.rows = 6;
    key_t(&mut state, make_key(BareKey::Down));
    assert_eq!(state.cursor_position, Some(8));
    assert_eq!(state.viewport_offset, 5);
}

#[test]
fn test_scroll_up_decrements_offset() {
    let mut state = PluginState::default();
    state.viewport_offset = 6;
    mouse_t(&mut state, Mouse::ScrollUp(0));
    assert_eq!(state.viewport_offset, 3);
}

#[test]
fn test_scroll_up_clamps_at_zero() {
    let mut state = PluginState::default();
    state.viewport_offset = 0;
    mouse_t(&mut state, Mouse::ScrollUp(0));
    assert_eq!(state.viewport_offset, 0);
}

#[test]
fn test_scroll_up_partial_clamp() {
    let mut state = PluginState::default();
    state.viewport_offset = 1;
    mouse_t(&mut state, Mouse::ScrollUp(0));
    assert_eq!(state.viewport_offset, 0);
}

#[test]
fn test_scroll_down_increments_offset() {
    let mut state = PluginState::default();
    mouse_t(&mut state, Mouse::ScrollDown(0));
    assert_eq!(state.viewport_offset, 3);
}

#[test]
fn test_scroll_down_additive() {
    let mut state = PluginState::default();
    state.viewport_offset = 3;
    mouse_t(&mut state, Mouse::ScrollDown(0));
    assert_eq!(state.viewport_offset, 6);
}

#[test]
fn test_left_click_on_tab_returns_true() {
    let mut state = PluginState::default();
    state.click_regions = vec![region(2, ClickTarget::Tab(5))];
    assert!(sim_left(&mut state, 2));
}

#[test]
fn test_left_click_on_group_collapses() {
    let mut state = PluginState::default();
    state.click_regions = vec![region(0, ClickTarget::Group("Default".into()))];
    assert!(sim_left(&mut state, 0));
    assert!(state.collapsed_groups.contains_key(&"Default".to_string()));
}

#[test]
fn test_left_click_on_group_expands_if_collapsed() {
    let mut state = PluginState::default();
    state.collapsed_groups.insert("Default".into(), ());
    state.click_regions = vec![region(0, ClickTarget::Group("Default".into()))];
    sim_left(&mut state, 0);
    assert!(!state.collapsed_groups.contains_key(&"Default".to_string()));
}

#[test]
fn test_left_click_on_pane_returns_true() {
    let mut state = PluginState::default();
    state.click_regions = vec![region(1, ClickTarget::Pane(42))];
    assert!(sim_left(&mut state, 1));
}

#[test]
fn test_left_click_off_region_returns_false() {
    let mut state = PluginState::default();
    state.click_regions = vec![];
    assert!(!sim_left(&mut state, 999));
}

#[test]
fn test_left_click_empty_target_returns_false() {
    let mut state = PluginState::default();
    state.click_regions = vec![region(0, ClickTarget::Empty)];
    assert!(!sim_left(&mut state, 0));
}

#[test]
fn test_left_click_uses_viewport_offset() {
    let mut state = PluginState::default();
    state.viewport_offset = 1;
    state.click_regions = vec![
        region(0, ClickTarget::Group("First".into())),
        region(1, ClickTarget::Group("Second".into())),
    ];
    sim_left(&mut state, 0);
    assert!(
        state.collapsed_groups.contains_key(&"Second".to_string()),
        "visual row 0 + offset 1 should hit logical line 1 = Second"
    );
}

#[test]
fn test_right_click_on_tab_sets_menu() {
    let mut state = PluginState::default();
    state.click_regions = vec![region(2, ClickTarget::Tab(5))];
    assert!(sim_right(&mut state, 2));
    let menu = state.active_menu.as_ref().expect("menu should be set");
    assert!(matches!(menu.target, MenuTarget::Tab(5)));
    assert_eq!(menu.position_line, 2);
    assert_eq!(menu.selected_index, 0);
}

#[test]
fn test_right_click_on_group_sets_group_menu() {
    let mut state = PluginState::default();
    state.click_regions = vec![region(0, ClickTarget::Group("Backend".into()))];
    assert!(sim_right(&mut state, 0));
    let menu = state.active_menu.as_ref().expect("menu should be set");
    assert!(matches!(&menu.target, MenuTarget::Group(n) if n == "Backend"));
}

#[test]
fn test_right_click_on_pane_sets_pane_menu() {
    let mut state = PluginState::default();
    state.click_regions = vec![region(3, ClickTarget::Pane(42))];
    assert!(sim_right(&mut state, 3));
    let menu = state.active_menu.as_ref().expect("menu should be set");
    assert!(matches!(menu.target, MenuTarget::Pane(42)));
}

#[test]
fn test_right_click_off_region_returns_false_no_menu() {
    let mut state = PluginState::default();
    state.click_regions = vec![];
    assert!(!sim_right(&mut state, 5));
    assert!(state.active_menu.is_none());
}

#[test]
fn test_negative_click_row_returns_false() {
    let mut state = PluginState::default();
    state.click_regions = vec![region(0, ClickTarget::Tab(0))];
    assert!(!mouse_t(&mut state, Mouse::LeftClick(-1, 0)));
    assert!(!mouse_t(&mut state, Mouse::RightClick(-1, 0)));
}

#[test]
fn test_pipe_busy_on() {
    let mut state = PluginState::default();
    assert!(pipe_t(&mut state, make_pipe("busy:1")));
    assert!(ind(&state, "default").busy);
}

#[test]
fn test_pipe_busy_off() {
    let mut state = PluginState::default();
    state.indicators.insert("default".into(), IndicatorState { busy: true, ..IndicatorState::default() });
    pipe_t(&mut state, make_pipe("busy:0"));
    assert!(!ind(&state, "default").busy);
}

#[test]
fn test_pipe_bell() {
    let mut state = PluginState::default();
    pipe_t(&mut state, make_pipe("bell:1"));
    assert!(ind(&state, "default").bell);
}

#[test]
fn test_pipe_input() {
    let mut state = PluginState::default();
    pipe_t(&mut state, make_pipe("input:1"));
    assert!(ind(&state, "default").input);
}

#[test]
fn test_pipe_with_explicit_pane_id() {
    let mut state = PluginState::default();
    pipe_t(&mut state, make_pipe_with_pane("busy:1", "%42"));
    assert!(ind(&state, "%42").busy);
}

#[test]
fn test_pipe_unknown_type_returns_false() {
    let mut state = PluginState::default();
    assert!(!pipe_t(&mut state, make_pipe("unknown:1")));
}

#[test]
fn test_pipe_no_payload_returns_false() {
    let mut state = PluginState::default();
    let msg = PipeMessage {
        payload: None,
        args: AssocMap::new(),
    };
    assert!(!pipe_t(&mut state, msg));
}

#[test]
fn test_pipe_malformed_payload_returns_false() {
    let mut state = PluginState::default();
    assert!(!pipe_t(&mut state, make_pipe("nocolon")));
}

fn make_rename_state(
    target: tabby_zj::state::RenameTarget,
    buf: &str,
) -> tabby_zj::state::RenameState {
    tabby_zj::state::RenameState {
        target,
        buffer: buf.into(),
    }
}

#[test]
fn test_rename_char_appends_to_buffer() {
    let mut state = PluginState::default();
    state.rename_state = Some(make_rename_state(RenameTarget::Tab(0), "ap"));
    key_t(&mut state, make_key(BareKey::Char('i')));
    assert_eq!(state.rename_state.as_ref().unwrap().buffer, "api");
}

#[test]
fn test_rename_backspace_removes_last_char() {
    let mut state = PluginState::default();
    state.rename_state = Some(make_rename_state(RenameTarget::Tab(0), "api"));
    key_t(&mut state, make_key(BareKey::Backspace));
    assert_eq!(state.rename_state.as_ref().unwrap().buffer, "ap");
}

#[test]
fn test_rename_backspace_on_empty_is_noop() {
    let mut state = PluginState::default();
    state.rename_state = Some(make_rename_state(RenameTarget::Tab(0), ""));
    key_t(&mut state, make_key(BareKey::Backspace));
    assert_eq!(state.rename_state.as_ref().unwrap().buffer, "");
}

#[test]
fn test_rename_esc_cancels_clears_state() {
    let mut state = PluginState::default();
    state.rename_state = Some(make_rename_state(RenameTarget::Tab(0), "foo"));
    let result = key_t(&mut state, make_key(BareKey::Esc));
    assert!(result);
    assert!(state.rename_state.is_none());
}

#[test]
fn test_rename_enter_clears_rename_state() {
    let mut state = PluginState::default();
    state.rename_state = Some(make_rename_state(RenameTarget::Tab(0), "new-name"));
    key_t(&mut state, make_key(BareKey::Enter));
    assert!(state.rename_state.is_none());
}

#[test]
fn test_rename_group_updates_assignments() {
    let mut state = PluginState::default();
    state
        .group_assignments
        .insert(TabKey::new("api", 0), "OldName".into());
    state.rename_state = Some(make_rename_state(
        RenameTarget::Group("OldName".into()),
        "NewName",
    ));
    key_t(&mut state, make_key(BareKey::Enter));
    assert_eq!(
        state.group_assignments.get(&TabKey::new("api", 0)),
        Some(&"NewName".into())
    );
}

#[test]
fn test_rename_group_updates_collapsed() {
    let mut state = PluginState::default();
    state.collapsed_groups.insert("OldName".into(), ());
    state.rename_state = Some(make_rename_state(
        RenameTarget::Group("OldName".into()),
        "NewName",
    ));
    key_t(&mut state, make_key(BareKey::Enter));
    assert!(!state.collapsed_groups.contains_key(&"OldName".to_string()));
    assert!(state.collapsed_groups.contains_key(&"NewName".to_string()));
}

#[test]
fn test_rename_empty_buffer_does_not_commit() {
    let mut state = PluginState::default();
    state
        .group_assignments
        .insert(TabKey::new("api", 0), "MyGroup".into());
    state.rename_state = Some(make_rename_state(RenameTarget::Group("MyGroup".into()), ""));
    key_t(&mut state, make_key(BareKey::Enter));
    assert_eq!(
        state.group_assignments.get(&TabKey::new("api", 0)),
        Some(&"MyGroup".into())
    );
}

#[test]
fn test_rename_blocks_menu_keys() {
    let mut state = PluginState::default();
    state.rename_state = Some(make_rename_state(RenameTarget::Tab(0), "foo"));
    state.active_menu = Some(tabby_zj::state::MenuState {
        target: MenuTarget::Tab(0),
        selected_index: 0,
        position_line: 0,
        ..Default::default()
    });
    key_t(&mut state, make_key(BareKey::Esc));
    assert!(
        state.rename_state.is_none(),
        "rename Esc should clear rename, not menu"
    );
    assert!(state.active_menu.is_some(), "menu should still be open");
}

#[test]
fn test_menu_up_decrements_selected_index() {
    let mut state = PluginState::default();
    state.active_menu = Some(tabby_zj::state::MenuState {
        target: MenuTarget::Tab(0),
        selected_index: 2,
        position_line: 0,
        ..Default::default()
    });
    key_t(&mut state, make_key(BareKey::Up));
    assert_eq!(state.active_menu.as_ref().unwrap().selected_index, 1);
}

#[test]
fn test_menu_down_increments_selected_index() {
    let mut state = PluginState::default();
    state.active_menu = Some(tabby_zj::state::MenuState {
        target: MenuTarget::Tab(0),
        selected_index: 0,
        position_line: 0,
        ..Default::default()
    });
    key_t(&mut state, make_key(BareKey::Down));
    assert_eq!(state.active_menu.as_ref().unwrap().selected_index, 1);
}

#[test]
fn test_pipe_collapse_on() {
    let mut state = PluginState::default();
    state.sidebar_collapsed = false;
    assert!(pipe_t(&mut state, make_pipe("collapse:1")));
    assert!(state.sidebar_collapsed);
}

#[test]
fn test_pipe_collapse_off() {
    let mut state = PluginState::default();
    state.sidebar_collapsed = true;
    assert!(pipe_t(&mut state, make_pipe("collapse:0")));
    assert!(!state.sidebar_collapsed);
}

#[test]
fn test_pipe_toggle_flips_false_to_true() {
    let mut state = PluginState::default();
    state.sidebar_collapsed = false;
    assert!(pipe_t(&mut state, make_pipe("toggle:1")));
    assert!(state.sidebar_collapsed);
}

#[test]
fn test_pipe_toggle_flips_true_to_false() {
    let mut state = PluginState::default();
    state.sidebar_collapsed = true;
    assert!(pipe_t(&mut state, make_pipe("toggle:1")));
    assert!(!state.sidebar_collapsed);
}

#[test]
fn test_click_on_collapsed_sidebar_expands() {
    let mut state = PluginState::default();
    state.sidebar_collapsed = true;
    state.click_regions = vec![];
    let result = mouse_t(&mut state, Mouse::LeftClick(5, 0));
    assert!(result);
    assert!(!state.sidebar_collapsed);
}

#[test]
fn test_click_on_normal_sidebar_does_not_change_collapsed() {
    let mut state = PluginState::default();
    state.sidebar_collapsed = false;
    state.click_regions = vec![region(0, ClickTarget::Tab(0))];
    mouse_t(&mut state, Mouse::LeftClick(0, 0));
    assert!(!state.sidebar_collapsed);
}

#[test]
fn test_pipe_collapse_still_handles_busy() {
    let mut state = PluginState::default();
    assert!(pipe_t(&mut state, make_pipe("collapse:1")));
    assert!(state.sidebar_collapsed);
    assert!(pipe_t(&mut state, make_pipe("busy:1")));
    assert!(ind(&state, "default").busy);
}

#[test]
fn test_pipe_collapse_does_not_affect_indicators() {
    let mut state = PluginState::default();
    state.indicators.insert("default".into(), IndicatorState { busy: true, ..IndicatorState::default() });
    pipe_t(&mut state, make_pipe("collapse:1"));
    assert!(
        ind(&state, "default").busy,
        "collapse should not touch indicators"
    );
}

#[test]
fn test_pipe_config_reload_returns_true() {
    let mut state = PluginState::default();
    let result = pipe_t(&mut state, make_pipe("config:reload"));
    assert!(result, "config:reload should return true");
}

#[test]
fn test_pipe_config_any_value_reloads() {
    let mut state = PluginState::default();
    let result = pipe_t(&mut state, make_pipe("config:1"));
    assert!(result);
}

fn empty_args() -> AssocMap<String, String> {
    AssocMap::new()
}

fn args_with_pane(pane_id: &str) -> AssocMap<String, String> {
    let mut m = AssocMap::new();
    m.insert("pane_id".to_string(), pane_id.to_string());
    m
}

#[test]
fn test_parse_pipe_busy_on() {
    assert_eq!(
        parse_pipe("busy:1", &empty_args()),
        PipeCommand::SetIndicator {
            indicator: "busy".into(),
            value: true,
            pane_id: None,
        }
    );
}

#[test]
fn test_parse_pipe_busy_off() {
    assert_eq!(
        parse_pipe("busy:0", &empty_args()),
        PipeCommand::SetIndicator {
            indicator: "busy".into(),
            value: false,
            pane_id: None,
        }
    );
}

#[test]
fn test_parse_pipe_busy_true_variant() {
    assert_eq!(
        parse_pipe("busy:true", &empty_args()),
        PipeCommand::SetIndicator {
            indicator: "busy".into(),
            value: true,
            pane_id: None,
        }
    );
}

#[test]
fn test_parse_pipe_bell_on() {
    assert_eq!(
        parse_pipe("bell:1", &empty_args()),
        PipeCommand::SetIndicator {
            indicator: "bell".into(),
            value: true,
            pane_id: None,
        }
    );
}

#[test]
fn test_parse_pipe_input_on() {
    assert_eq!(
        parse_pipe("input:1", &empty_args()),
        PipeCommand::SetIndicator {
            indicator: "input".into(),
            value: true,
            pane_id: None,
        }
    );
}

#[test]
fn test_parse_pipe_indicator_pane_id_from_args() {
    assert_eq!(
        parse_pipe("busy:1", &args_with_pane("%42")),
        PipeCommand::SetIndicator {
            indicator: "busy".into(),
            value: true,
            pane_id: Some("%42".into()),
        }
    );
}

#[test]
fn test_parse_pipe_indicator_pane_id_from_third_segment() {
    assert_eq!(
        parse_pipe("busy:1:%99", &empty_args()),
        PipeCommand::SetIndicator {
            indicator: "busy".into(),
            value: true,
            pane_id: Some("%99".into()),
        }
    );
}

#[test]
fn test_parse_pipe_indicator_args_pane_id_wins_over_segment() {
    assert_eq!(
        parse_pipe("busy:1:%99", &args_with_pane("%42")),
        PipeCommand::SetIndicator {
            indicator: "busy".into(),
            value: true,
            pane_id: Some("%42".into()),
        }
    );
}

#[test]
fn test_parse_pipe_collapse_on() {
    assert_eq!(
        parse_pipe("collapse:1", &empty_args()),
        PipeCommand::Collapse(true)
    );
}

#[test]
fn test_parse_pipe_collapse_off() {
    assert_eq!(
        parse_pipe("collapse:0", &empty_args()),
        PipeCommand::Collapse(false)
    );
}

#[test]
fn test_parse_pipe_toggle() {
    assert_eq!(parse_pipe("toggle:1", &empty_args()), PipeCommand::Toggle);
}

#[test]
fn test_parse_pipe_toggle_no_value() {
    assert_eq!(parse_pipe("toggle", &empty_args()), PipeCommand::Toggle);
}

#[test]
fn test_parse_pipe_config_reload() {
    assert_eq!(
        parse_pipe("config:reload", &empty_args()),
        PipeCommand::ReloadConfig
    );
}

#[test]
fn test_parse_pipe_config_any_value() {
    assert_eq!(
        parse_pipe("config:1", &empty_args()),
        PipeCommand::ReloadConfig
    );
}

#[test]
fn test_parse_pipe_config_no_value() {
    assert_eq!(
        parse_pipe("config", &empty_args()),
        PipeCommand::ReloadConfig
    );
}

#[test]
fn test_parse_pipe_quota() {
    assert_eq!(
        parse_pipe("quota:somedata", &empty_args()),
        PipeCommand::SetQuota {
            data: "somedata".into()
        }
    );
}

#[test]
fn test_parse_pipe_quota_with_colons() {
    assert_eq!(
        parse_pipe("quota:a:b", &empty_args()),
        PipeCommand::SetQuota { data: "a:b".into() }
    );
}

#[test]
fn test_parse_pipe_marker() {
    assert_eq!(
        parse_pipe("marker:mykey:🔥", &empty_args()),
        PipeCommand::SetMarker {
            tab_key: "mykey".into(),
            emoji: "🔥".into(),
        }
    );
}

#[test]
fn test_parse_pipe_marker_missing_emoji_is_unknown() {
    assert_eq!(
        parse_pipe("marker:mykey", &empty_args()),
        PipeCommand::Unknown("marker:mykey".into())
    );
}

#[test]
fn test_parse_pipe_empty_string_is_unknown() {
    assert_eq!(
        parse_pipe("", &empty_args()),
        PipeCommand::Unknown("".into())
    );
}

#[test]
fn test_parse_pipe_no_colon_is_unknown() {
    assert_eq!(
        parse_pipe("nocolon", &empty_args()),
        PipeCommand::Unknown("nocolon".into())
    );
}

#[test]
fn test_parse_pipe_unknown_command() {
    assert_eq!(
        parse_pipe("unknown:1", &empty_args()),
        PipeCommand::Unknown("unknown:1".into())
    );
}

#[test]
fn test_parse_pipe_busy_not_a_bool_is_false_value() {
    assert_eq!(
        parse_pipe("busy:notabool", &empty_args()),
        PipeCommand::SetIndicator {
            indicator: "busy".into(),
            value: false,
            pane_id: None,
        }
    );
}

#[test]
fn click_on_divider_collapses_sidebar() {
    let mut state = PluginState::default();
    state.rows = 10;
    state.click_regions = (0..12).map(|i| region(i, ClickTarget::Tab(i))).collect();
    let mut fx = Vec::new();
    let redraw = handle_mouse(&mut state, Mouse::LeftClick(8, 3), &mut fx);
    assert!(redraw);
    assert!(state.sidebar_collapsed);
    assert!(matches!(fx.as_slice(), [HostAction::SaveState]));
    let mut fx = Vec::new();
    assert!(handle_mouse(&mut state, Mouse::LeftClick(0, 0), &mut fx));
    assert!(!state.sidebar_collapsed);
}

#[test]
fn click_above_divider_acts_on_the_line() {
    let mut state = PluginState::default();
    state.rows = 10;
    state.click_regions = (0..12).map(|i| region(i, ClickTarget::Tab(i))).collect();
    let mut fx = Vec::new();
    assert!(handle_mouse(&mut state, Mouse::LeftClick(7, 3), &mut fx));
    assert!(!state.sidebar_collapsed);
    assert!(matches!(fx.as_slice(), [HostAction::SwitchTab(7)]));
}
