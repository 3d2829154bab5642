use tabby_zj::assoc::AssocMap;
use tabby_zj::click::{ClickRegion, ClickTarget};
use tabby_zj::colors::catppuccin_mocha;
use tabby_zj::config::{GroupConfig, SidebarConfig, ThemeConfig};
use tabby_zj::grouping::{assign_groups, fill_theme, theme_base};
use tabby_zj::indicators::IndicatorState;
use tabby_zj::render::{
    apply_menu_overlay, auto_scroll_to_active, build_sidebar_lines, build_widget_line,
    clamp_viewport, menu_target_name, pad_visible, render_sidebar, GroupColors, SidebarPalette,
};
use tabby_zj::state::{
    MenuState, MenuTarget, PaneEntry, PluginState, RenameState, RenameTarget, TabEntry, TabKey,
};

fn make_tab(name: &str, position: usize, active: bool) -> TabEntry {
    TabEntry {
        position,
        name: name.to_string(),
        active,
        panes: vec![],
    }
}

fn state_with_tabs(tabs: Vec<TabEntry>) -> PluginState {
    let mut s = PluginState::default();
    s.tab_entries = tabs;
    s.config.sidebar.show_panes = true;
    s
}

fn palette(state: &PluginState) -> SidebarPalette {
    let groups = assign_groups(
        &state.tab_entries,
        &state.config.groups,
        &state.group_assignments,
        &state.collapsed_groups,
        state.config.sidebar.show_empty_groups,
        &state.config.sidebar.sort_by,
    );
    let mut pal = SidebarPalette {
        groups: vec![],
        text_on_custom: AssocMap::new(),
    };
    for (i, g) in groups.iter().enumerate() {
        pal.groups.push(GroupColors {
            theme: fill_theme(
                &g.theme,
                theme_base(&g.theme, i),
                g.theme.fg.clone(),
                g.theme.bg.clone(),
                g.theme.fg.clone(),
            ),
            text_on_bg: "#ffffff".to_string(),
        });
    }
    for (k, _) in &state.custom_colors.entries {
        pal.text_on_custom.insert(k.clone(), "#000000".to_string());
    }
    pal
}

fn lines_of(state: &PluginState, cols: usize) -> (Vec<String>, Vec<ClickRegion>) {
    let pal = palette(state);
    build_sidebar_lines(state, cols, &pal)
}

fn render(state: &mut PluginState, rows: usize, cols: usize) -> Vec<String> {
    let pal = palette(state);
    render_sidebar(state, rows, cols, &pal, "12:34:56")
}

fn make_pane(id: u32, title: &str, is_focused: bool) -> PaneEntry {
    PaneEntry {
        id,
        is_plugin: false,
        title: title.to_string(),
        is_focused,
        is_floating: false,
        cwd: None,
    }
}

#[test]
fn test_empty_state_no_panic() {
    let state = PluginState::default();
    let (lines, map) = lines_of(&state, 30);
    let _ = (lines, map);
}

#[test]
fn test_single_tab_produces_header_and_row() {
    let state = state_with_tabs(vec![make_tab("api", 0, false)]);
    let (lines, map) = lines_of(&state, 30);
    assert!(lines.len() >= 2, "expected header + 1 tab, got {}", lines.len());
    assert_eq!(lines.len(), map.len(), "lines and click_map must be same length");
}

#[test]
fn test_collapsed_group_shows_only_header() {
    let mut state = state_with_tabs(vec![make_tab("api", 0, false)]);
    state.collapsed_groups.insert("Default".to_string(), ());
    let (lines, _) = lines_of(&state, 30);
    assert_eq!(lines.len(), 1, "collapsed group should emit only header");
}

#[test]
fn test_active_tab_has_indicator() {
    let state = state_with_tabs(vec![make_tab("api", 0, true), make_tab("web", 1, false)]);
    let (lines, _) = lines_of(&state, 40);
    let active_lines: Vec<&String> = lines.iter().filter(|l| l.contains('▶')).collect();
    assert_eq!(active_lines.len(), 1, "exactly one active indicator expected");
    assert!(active_lines[0].contains("api"), "active tab should be api");
}

#[test]
fn test_inactive_tab_has_no_arrow() {
    let state = state_with_tabs(vec![make_tab("api", 0, false)]);
    let (lines, _) = lines_of(&state, 30);
    let tab_lines: Vec<&String> = lines.iter().skip(1).collect();
    assert!(!tab_lines.is_empty());
    assert!(
        !tab_lines.iter().any(|l| l.contains('▶')),
        "inactive tab should not have arrow"
    );
}

#[test]
fn test_lines_contain_ansi_codes() {
    let state = state_with_tabs(vec![make_tab("api", 0, false)]);
    let (lines, _) = lines_of(&state, 30);
    assert!(lines.iter().any(|l| l.contains("\x1b[")), "lines should contain ANSI");
}

#[test]
fn test_marker_appears_in_tab_line() {
    let mut state = state_with_tabs(vec![make_tab("api", 0, false)]);
    state.markers.insert(TabKey::new("api", 0), "🚀".to_string());
    let (lines, _) = lines_of(&state, 40);
    let tab_line = lines.iter().nth(1).expect("tab line expected");
    assert!(tab_line.contains("🚀"), "marker should appear in tab line");
}

#[test]
fn test_custom_color_overrides_tab_bg() {
    let mut state = state_with_tabs(vec![make_tab("api", 0, false)]);
    state.custom_colors.insert(TabKey::new("api", 0), "#e74c3c".to_string());
    let (lines, _) = lines_of(&state, 30);
    let tab_line = lines.iter().nth(1).expect("tab line expected");
    assert!(tab_line.contains("231"), "custom red ANSI (r=231) should appear");
}

#[test]
fn test_configured_groups_render() {
    let mut state = state_with_tabs(vec![
        make_tab("FE|dashboard", 0, true),
        make_tab("BE|api", 1, false),
    ]);
    let mut fe_theme = ThemeConfig::default();
    fe_theme.bg = "#e74c3c".to_string();
    state.config.groups = vec![
        GroupConfig {
            name: "Frontend".to_string(),
            pattern: r"^FE\|".to_string(),
            working_dir: None,
            theme: fe_theme,
        },
        GroupConfig {
            name: "Backend".to_string(),
            pattern: r"^BE\|".to_string(),
            working_dir: None,
            theme: ThemeConfig::default(),
        },
    ];
    let (lines, _) = lines_of(&state, 40);
    let headers: Vec<&String> = lines
        .iter()
        .filter(|l| l.contains("⊟") || l.contains("⊞"))
        .collect();
    assert!(headers.len() >= 2, "should have at least 2 group headers, got {}", headers.len());
}

#[test]
fn test_click_regions_tab_entries() {
    let state = state_with_tabs(vec![make_tab("api", 0, false), make_tab("web", 1, false)]);
    let (lines, regions) = lines_of(&state, 30);
    assert_eq!(lines.len(), regions.len());
    let tab_regions: Vec<_> = regions
        .iter()
        .filter(|r| matches!(r.target, ClickTarget::Tab(_)))
        .collect();
    assert_eq!(tab_regions.len(), 2, "should have 2 Tab click regions");
}

#[test]
fn test_click_regions_group_entry() {
    let state = state_with_tabs(vec![make_tab("api", 0, false)]);
    let (_, regions) = lines_of(&state, 30);
    assert!(
        regions.iter().any(|r| matches!(r.target, ClickTarget::Group(_))),
        "should have at least one Group click region"
    );
}

#[test]
fn test_click_regions_line_indices_match() {
    let state = state_with_tabs(vec![make_tab("api", 0, false), make_tab("web", 1, false)]);
    let (lines, regions) = lines_of(&state, 30);
    assert_eq!(lines.len(), regions.len());
    for (i, region) in regions.iter().enumerate() {
        assert_eq!(region.line, i, "region at index {} should have line={}", i, i);
    }
}

#[test]
fn test_pad_visible_pads_to_cols() {
    let result = pad_visible("hello", 10);
    assert_eq!(result.chars().count(), 10);
    assert!(result.starts_with("hello"));
}

#[test]
fn test_pad_visible_truncates_long_input() {
    let result = pad_visible("hello world!", 5);
    assert_eq!(result, "hello");
}

#[test]
fn test_bell_indicator_appears_in_tab_line() {
    let mut tab = make_tab("api", 0, false);
    tab.panes = vec![PaneEntry {
        id: 42,
        is_plugin: false,
        ..PaneEntry::default()
    }];
    let mut state = PluginState::default();
    state.tab_entries = vec![tab];
    state.indicators.insert(
        "%42".into(),
        IndicatorState {
            bell: true,
            ..IndicatorState::default()
        },
    );
    let (lines, _) = lines_of(&state, 40);
    let tab_line = lines.iter().nth(1).expect("tab line expected");
    assert!(tab_line.contains('◆'), "bell indicator should appear");
}

#[test]
fn test_no_indicators_when_panes_empty() {
    let state = state_with_tabs(vec![make_tab("api", 0, false)]);
    let (lines, _) = lines_of(&state, 40);
    let tab_line = lines.iter().nth(1).expect("tab line expected");
    assert!(!tab_line.contains('◆'), "no bell when panes empty");
    assert!(!tab_line.contains('?'), "no input indicator when panes empty");
}

#[test]
fn test_plugin_pane_excluded_from_indicators() {
    let mut tab = make_tab("api", 0, false);
    tab.panes = vec![PaneEntry {
        id: 7,
        is_plugin: true,
        ..PaneEntry::default()
    }];
    let mut state = PluginState::default();
    state.tab_entries = vec![tab];
    state.indicators.insert(
        "%7".into(),
        IndicatorState {
            bell: true,
            ..IndicatorState::default()
        },
    );
    let (lines, _) = lines_of(&state, 40);
    let tab_line = lines.iter().nth(1).expect("tab line expected");
    assert!(!tab_line.contains('◆'), "plugin pane should be excluded");
}

#[test]
fn test_pane_renders_under_tab() {
    let mut tab = make_tab("api", 0, false);
    tab.panes = vec![make_pane(1, "nvim", false)];
    let state = state_with_tabs(vec![tab]);
    let (lines, regions) = lines_of(&state, 40);
    assert_eq!(lines.len(), 3, "header + tab + 1 pane = 3 lines");
    assert_eq!(regions.len(), 3);
}

#[test]
fn test_plugin_pane_not_rendered() {
    let mut tab = make_tab("api", 0, false);
    tab.panes = vec![PaneEntry {
        id: 99,
        is_plugin: true,
        title: "tabby-zj".into(),
        ..PaneEntry::default()
    }];
    let state = state_with_tabs(vec![tab]);
    let (lines, _) = lines_of(&state, 40);
    assert_eq!(lines.len(), 2, "plugin pane should not add a line");
}

#[test]
fn test_focused_pane_has_filled_dot() {
    let mut tab = make_tab("api", 0, false);
    tab.panes = vec![make_pane(1, "nvim", true)];
    let state = state_with_tabs(vec![tab]);
    let (lines, _) = lines_of(&state, 40);
    let pane_line = lines.last().expect("pane line expected");
    assert!(pane_line.contains('●'), "focused pane should show filled dot");
    assert!(!pane_line.contains('·'), "focused pane should not show hollow dot");
}

#[test]
fn test_unfocused_pane_has_hollow_dot() {
    let mut tab = make_tab("api", 0, false);
    tab.panes = vec![make_pane(2, "bash", false)];
    let state = state_with_tabs(vec![tab]);
    let (lines, _) = lines_of(&state, 40);
    let pane_line = lines.last().expect("pane line expected");
    assert!(pane_line.contains('·'), "unfocused pane should show hollow dot");
}

#[test]
fn test_pane_title_appears_in_pane_line() {
    let mut tab = make_tab("api", 0, false);
    tab.panes = vec![make_pane(1, "cargo build", false)];
    let state = state_with_tabs(vec![tab]);
    let (lines, _) = lines_of(&state, 50);
    let pane_line = lines.last().expect("pane line expected");
    assert!(pane_line.contains("cargo build"), "pane title should appear");
}

#[test]
fn test_pane_click_region_has_pane_target() {
    let mut tab = make_tab("api", 0, false);
    tab.panes = vec![make_pane(42, "nvim", false)];
    let state = state_with_tabs(vec![tab]);
    let (_, regions) = lines_of(&state, 40);
    let pane_regions: Vec<_> = regions
        .iter()
        .filter(|r| matches!(r.target, ClickTarget::Pane(42)))
        .collect();
    assert_eq!(pane_regions.len(), 1, "should have one Pane click region");
}

#[test]
fn test_pane_region_line_follows_tab_line() {
    let mut tab = make_tab("api", 0, false);
    tab.panes = vec![make_pane(1, "nvim", false)];
    let state = state_with_tabs(vec![tab]);
    let (_, regions) = lines_of(&state, 40);
    let tab_region = regions
        .iter()
        .find(|r| matches!(r.target, ClickTarget::Tab(0)))
        .unwrap();
    let pane_region = regions
        .iter()
        .find(|r| matches!(r.target, ClickTarget::Pane(1)))
        .unwrap();
    assert_eq!(pane_region.line, tab_region.line + 1, "pane line should be directly after tab");
}

#[test]
fn test_multiple_panes_all_rendered() {
    let mut tab = make_tab("api", 0, false);
    tab.panes = vec![
        make_pane(1, "nvim", true),
        make_pane(2, "bash", false),
        make_pane(3, "htop", false),
    ];
    let state = state_with_tabs(vec![tab]);
    let (lines, regions) = lines_of(&state, 40);
    assert_eq!(lines.len(), 5, "header + tab + 3 panes = 5");
    let pane_regions: Vec<_> = regions
        .iter()
        .filter(|r| matches!(r.target, ClickTarget::Pane(_)))
        .collect();
    assert_eq!(pane_regions.len(), 3);
}

#[test]
fn test_empty_pane_title_shows_fallback() {
    let mut tab = make_tab("api", 0, false);
    tab.panes = vec![make_pane(1, "", false)];
    let state = state_with_tabs(vec![tab]);
    let (lines, _) = lines_of(&state, 40);
    let pane_line = lines.last().expect("pane line expected");
    assert!(pane_line.contains("pane"), "empty title should fall back to 'pane'");
}

#[test]
fn test_clamp_viewport_zero_when_no_overflow() {
    assert_eq!(clamp_viewport(0, 10, 24), 0);
}

#[test]
fn test_clamp_viewport_reduces_excess_offset() {
    assert_eq!(clamp_viewport(20, 10, 24), 0);
}

#[test]
fn test_clamp_viewport_exact_boundary() {
    assert_eq!(clamp_viewport(6, 30, 24), 6);
}

#[test]
fn test_clamp_viewport_at_max_allowed() {
    assert_eq!(clamp_viewport(6, 30, 24), 6);
    assert_eq!(clamp_viewport(7, 30, 24), 6);
}

#[test]
fn test_clamp_viewport_fewer_lines_than_rows() {
    assert_eq!(clamp_viewport(5, 3, 24), 0);
}

#[test]
fn test_clamp_viewport_equal_lines_and_rows() {
    assert_eq!(clamp_viewport(1, 24, 24), 0);
}

#[test]
fn test_clamp_viewport_valid_offset_unchanged() {
    assert_eq!(clamp_viewport(3, 30, 24), 3);
}

#[test]
fn test_viewport_clamped_to_max() {
    let tabs: Vec<TabEntry> = (0..5)
        .map(|i| make_tab(&format!("tab{}", i), i, i == 0))
        .collect();
    let mut state = state_with_tabs(tabs);
    state.viewport_offset = 0;
    render(&mut state, 4, 30);
    assert!(
        state.viewport_offset <= state.max_viewport_offset,
        "viewport_offset {} must be <= max_viewport_offset {}",
        state.viewport_offset,
        state.max_viewport_offset
    );
}

#[test]
fn test_active_tab_auto_scroll_into_view() {
    let mut state = state_with_tabs(vec![make_tab("other", 0, false), make_tab("active", 10, true)]);
    state.viewport_offset = 0;
    let regions = vec![
        ClickRegion {
            line: 0,
            target: ClickTarget::Group("Default".to_string()),
        },
        ClickRegion {
            line: 1,
            target: ClickTarget::Tab(0),
        },
        ClickRegion {
            line: 10,
            target: ClickTarget::Tab(10),
        },
    ];
    auto_scroll_to_active(&mut state, &regions, 5);
    assert_eq!(state.viewport_offset, 6, "line 10 with scrollable_rows=5 should shift offset to 6");
}

#[test]
fn test_auto_scroll_no_change_when_visible() {
    let mut state = state_with_tabs(vec![make_tab("active", 0, true)]);
    state.viewport_offset = 0;
    let regions = vec![
        ClickRegion {
            line: 0,
            target: ClickTarget::Group("Default".to_string()),
        },
        ClickRegion {
            line: 1,
            target: ClickTarget::Tab(0),
        },
    ];
    auto_scroll_to_active(&mut state, &regions, 10);
    assert_eq!(state.viewport_offset, 0, "active tab at line 1 is within [0,10), offset should not change");
}

#[test]
fn test_pinned_height_reduces_scrollable_area() {
    let tabs: Vec<TabEntry> = (0..3)
        .map(|i| make_tab(&format!("t{}", i), i, i == 0))
        .collect();
    let mut state = state_with_tabs(tabs);
    render(&mut state, 10, 30);
    assert_eq!(
        state.max_viewport_offset, 0,
        "4 content lines fit in 8 scrollable rows (rows=10, pinned=2), max_offset=0"
    );
}

#[test]
fn test_scroll_down_clamped() {
    let tabs: Vec<TabEntry> = (0..5)
        .map(|i| make_tab(&format!("tab{}", i), i, false))
        .collect();
    let mut state = state_with_tabs(tabs);
    state.viewport_offset = 9999;
    render(&mut state, 4, 30);
    assert_eq!(
        state.viewport_offset, state.max_viewport_offset,
        "9999 should be clamped to max_viewport_offset"
    );
    assert!(state.max_viewport_offset < 100);
}

#[test]
fn test_auto_scroll_up_when_active_above_viewport() {
    let mut state = state_with_tabs(vec![make_tab("active", 0, true), make_tab("other", 1, false)]);
    state.viewport_offset = 5;
    let regions = vec![
        ClickRegion {
            line: 0,
            target: ClickTarget::Group("Default".to_string()),
        },
        ClickRegion {
            line: 1,
            target: ClickTarget::Tab(0),
        },
        ClickRegion {
            line: 2,
            target: ClickTarget::Tab(1),
        },
    ];
    auto_scroll_to_active(&mut state, &regions, 5);
    assert_eq!(state.viewport_offset, 1, "active tab at line 1 above viewport(5) should scroll up to line 1");
}

#[test]
fn test_max_viewport_offset_written_to_state() {
    let tabs: Vec<TabEntry> = (0..10)
        .map(|i| make_tab(&format!("tab{}", i), i, i == 0))
        .collect();
    let mut state = state_with_tabs(tabs);
    render(&mut state, 6, 30);
    assert!(state.max_viewport_offset > 0, "10 tabs should produce max_viewport_offset > 0 with rows=6");
    assert_eq!(
        state.max_viewport_offset,
        state.viewport_offset.max(state.max_viewport_offset),
        "max_viewport_offset must be an upper bound on viewport_offset"
    );
}

#[test]
fn test_cursor_none_no_reverse_video() {
    let state = state_with_tabs(vec![make_tab("api", 0, false)]);
    let (lines, _) = lines_of(&state, 40);
    assert!(
        !lines.iter().any(|l| l.contains("\x1b[7m")),
        "no reverse video when cursor_position is None"
    );
}

#[test]
fn test_cursor_on_group_header_applies_reverse() {
    let mut state = state_with_tabs(vec![make_tab("api", 0, false)]);
    state.cursor_position = Some(0);
    let (lines, _) = lines_of(&state, 40);
    assert!(lines[0].contains("\x1b[7m"), "group header at index 0 should have reverse video");
    assert!(!lines[1].contains("\x1b[7m"), "tab at index 1 should not have reverse video");
}

#[test]
fn test_cursor_on_tab_row_applies_reverse() {
    let mut state = state_with_tabs(vec![make_tab("api", 0, false)]);
    state.cursor_position = Some(1);
    let (lines, _) = lines_of(&state, 40);
    assert!(!lines[0].contains("\x1b[7m"), "group header should not have reverse");
    assert!(lines[1].contains("\x1b[7m"), "tab at index 1 should have reverse video");
}

#[test]
fn test_cursor_on_pane_row_applies_reverse() {
    let mut tab = make_tab("api", 0, false);
    tab.panes = vec![make_pane(1, "nvim", false)];
    let mut state = state_with_tabs(vec![tab]);
    state.cursor_position = Some(2);
    let (lines, _) = lines_of(&state, 40);
    assert!(!lines[0].contains("\x1b[7m"), "group header should not have cursor");
    assert!(!lines[1].contains("\x1b[7m"), "tab line should not have cursor");
    assert!(lines[2].contains("\x1b[7m"), "pane at index 2 should have reverse video");
}

#[test]
fn test_only_cursor_line_has_reverse() {
    let tabs = vec![make_tab("api", 0, false), make_tab("web", 1, false)];
    let mut state = state_with_tabs(tabs);
    state.cursor_position = Some(2);
    let (lines, _) = lines_of(&state, 40);
    let count = lines.iter().filter(|l| l.contains("\x1b[7m")).count();
    assert_eq!(count, 1, "exactly one line should have cursor highlight");
}

#[test]
fn test_cursor_moves_highlight() {
    let mut state = state_with_tabs(vec![make_tab("api", 0, false)]);
    state.cursor_position = Some(0);
    let (lines_at_0, _) = lines_of(&state, 40);
    state.cursor_position = Some(1);
    let (lines_at_1, _) = lines_of(&state, 40);
    assert!(lines_at_0[0].contains("\x1b[7m"), "cursor=0: group highlighted");
    assert!(!lines_at_0[1].contains("\x1b[7m"), "cursor=0: tab not highlighted");
    assert!(!lines_at_1[0].contains("\x1b[7m"), "cursor=1: group not highlighted");
    assert!(lines_at_1[1].contains("\x1b[7m"), "cursor=1: tab highlighted");
}

#[test]
fn test_cursor_out_of_bounds_no_panic() {
    let mut state = state_with_tabs(vec![make_tab("api", 0, false)]);
    state.cursor_position = Some(999);
    let (lines, _) = lines_of(&state, 40);
    assert!(
        !lines.iter().any(|l| l.contains("\x1b[7m")),
        "out-of-bounds cursor should not highlight any line"
    );
}

#[test]
fn test_menu_overlay_replaces_line_at_position() {
    let state = state_with_tabs(vec![make_tab("api", 0, false), make_tab("web", 1, false)]);
    let (mut lines, _) = lines_of(&state, 40);
    let line1_before = lines[1].clone();
    let menu = MenuState {
        target: MenuTarget::Tab(0),
        selected_index: 0,
        position_line: 1,
        ..Default::default()
    };
    let theme = catppuccin_mocha();
    let written = apply_menu_overlay(&mut lines, &menu, 0, 20, 40, &[], &theme);
    assert!(written > 0, "should write at least one menu item");
    assert_ne!(lines[1], line1_before, "line at position_line should be replaced by menu item");
}

#[test]
fn test_menu_overlay_selected_item_has_arrow() {
    let state = state_with_tabs(vec![make_tab("api", 0, false)]);
    let (mut lines, _) = lines_of(&state, 40);
    let menu = MenuState {
        target: MenuTarget::Tab(0),
        selected_index: 0,
        position_line: 0,
        ..Default::default()
    };
    let theme = catppuccin_mocha();
    apply_menu_overlay(&mut lines, &menu, 0, 20, 40, &[], &theme);
    assert!(lines[0].contains('▶'), "selected item (index 0) should have arrow indicator");
}

#[test]
fn test_menu_overlay_unselected_item_no_arrow() {
    let state = state_with_tabs(vec![
        make_tab("api", 0, false),
        make_tab("web", 1, false),
        make_tab("db", 2, false),
    ]);
    let (mut lines, _) = lines_of(&state, 40);
    let menu = MenuState {
        target: MenuTarget::Tab(0),
        selected_index: 0,
        position_line: 0,
        ..Default::default()
    };
    let theme = catppuccin_mocha();
    apply_menu_overlay(&mut lines, &menu, 0, 20, 40, &[], &theme);
    if lines.len() > 1 {
        assert!(
            !lines[1].contains('▶') || lines[1].contains("\x1b["),
            "unselected item at line 1 should not have selection arrow (may have tab arrow)"
        );
    }
}

#[test]
fn test_menu_overlay_none_target_writes_nothing() {
    let state = state_with_tabs(vec![make_tab("api", 0, false)]);
    let (mut lines, _) = lines_of(&state, 40);
    let original = lines.clone();
    let menu = MenuState {
        target: MenuTarget::NoTarget,
        selected_index: 0,
        position_line: 0,
        ..Default::default()
    };
    let theme = catppuccin_mocha();
    let written = apply_menu_overlay(&mut lines, &menu, 0, 20, 40, &[], &theme);
    assert_eq!(written, 0, "MenuTarget::NoTarget should write 0 items");
    assert_eq!(lines, original, "lines should be unchanged for NoTarget");
}

#[test]
fn test_menu_overlay_out_of_bounds_position_no_panic() {
    let state = state_with_tabs(vec![make_tab("api", 0, false)]);
    let (mut lines, _) = lines_of(&state, 40);
    let menu = MenuState {
        target: MenuTarget::Tab(0),
        selected_index: 0,
        position_line: 9999,
        ..Default::default()
    };
    let theme = catppuccin_mocha();
    let written = apply_menu_overlay(&mut lines, &menu, 0, 20, 40, &[], &theme);
    assert_eq!(written, 0, "out-of-bounds position_line should write nothing");
}

#[test]
fn test_menu_overlay_group_target_writes_items() {
    let state = state_with_tabs(vec![make_tab("api", 0, false)]);
    let (mut lines, _) = lines_of(&state, 40);
    let menu = MenuState {
        target: MenuTarget::Group("Default".to_string()),
        selected_index: 0,
        position_line: 0,
        ..Default::default()
    };
    let theme = catppuccin_mocha();
    let written = apply_menu_overlay(&mut lines, &menu, 0, 20, 40, &[], &theme);
    assert!(written > 0, "group menu should write at least one item");
}

#[test]
fn test_menu_overlay_selected_item_has_highlight_bg() {
    let state = state_with_tabs(vec![make_tab("api", 0, false)]);
    let (mut lines, _) = lines_of(&state, 40);
    let menu = MenuState {
        target: MenuTarget::Tab(0),
        selected_index: 0,
        position_line: 0,
        ..Default::default()
    };
    let theme = catppuccin_mocha();
    apply_menu_overlay(&mut lines, &menu, 0, 20, 40, &[], &theme);
    assert!(
        lines[0].contains("\x1b[48;2;60;60;80m"),
        "selected item should have highlight background color"
    );
}

#[test]
fn test_build_widget_line_no_rename_returns_widget() {
    let state = state_with_tabs(vec![make_tab("api", 0, false)]);
    let line = build_widget_line(&state, 30, "12:34:56");
    assert_eq!(line.len(), 30, "widget line should be padded to cols");
    assert!(!line.contains("Rename:"), "no rename state → no rename prompt");
}

#[test]
fn test_build_widget_line_with_rename_shows_prompt() {
    let mut state = state_with_tabs(vec![make_tab("api", 0, false)]);
    state.rename_state = Some(RenameState {
        target: RenameTarget::Tab(0),
        buffer: "my-tab".to_string(),
    });
    let line = build_widget_line(&state, 40, "12:34:56");
    assert!(line.contains("Rename:"), "rename state → prompt should appear");
    assert!(line.contains("my-tab"), "rename buffer should appear in prompt");
}

#[test]
fn test_build_widget_line_rename_has_cursor_block() {
    let mut state = state_with_tabs(vec![make_tab("api", 0, false)]);
    state.rename_state = Some(RenameState {
        target: RenameTarget::Tab(0),
        buffer: String::new(),
    });
    let line = build_widget_line(&state, 40, "12:34:56");
    assert!(line.contains('\u{2588}'), "rename prompt should contain block cursor █");
}

#[test]
fn test_build_widget_line_rename_padded_to_cols() {
    let mut state = state_with_tabs(vec![make_tab("api", 0, false)]);
    state.rename_state = Some(RenameState {
        target: RenameTarget::Tab(0),
        buffer: "x".to_string(),
    });
    let line = build_widget_line(&state, 35, "12:34:56");
    let visible_len = line.chars().count();
    assert_eq!(visible_len, 35, "rename line should be padded to cols");
}

#[test]
fn test_build_widget_line_rename_empty_buffer() {
    let mut state = state_with_tabs(vec![make_tab("api", 0, false)]);
    state.rename_state = Some(RenameState {
        target: RenameTarget::Group("Default".to_string()),
        buffer: String::new(),
    });
    let line = build_widget_line(&state, 30, "12:34:56");
    assert!(line.contains("Rename:"), "empty buffer still shows prompt");
    assert!(line.contains('\u{2588}'), "empty buffer still shows cursor");
}

#[test]
fn test_cursor_clamped_when_regions_shrink() {
    let tabs: Vec<TabEntry> = (0..5)
        .map(|i| make_tab(&format!("t{}", i), i, false))
        .collect();
    let mut state = state_with_tabs(tabs);
    state.cursor_position = Some(10);
    render(&mut state, 20, 30);
    if let Some(pos) = state.cursor_position {
        assert!(
            pos < state.click_regions.len(),
            "cursor_position {} must be < click_regions.len() {}",
            pos,
            state.click_regions.len()
        );
    }
}

#[test]
fn test_cursor_cleared_when_regions_empty() {
    let mut state = PluginState::default();
    state.cursor_position = Some(3);
    render(&mut state, 10, 30);
    assert_eq!(state.cursor_position, None, "cursor should be None when click_regions is empty");
}

#[test]
fn test_cursor_valid_position_unchanged() {
    let tabs: Vec<TabEntry> = (0..3)
        .map(|i| make_tab(&format!("t{}", i), i, false))
        .collect();
    let mut state = state_with_tabs(tabs);
    render(&mut state, 20, 30);
    let total = state.click_regions.len();
    state.cursor_position = Some(0);
    render(&mut state, 20, 30);
    assert_eq!(
        state.cursor_position,
        Some(0),
        "valid cursor position 0 should remain 0 after re-render (total={})",
        total
    );
}

#[test]
fn test_menu_target_name_tab() {
    assert_eq!(menu_target_name(&MenuTarget::Tab(2)), "tab 2");
}

#[test]
fn test_menu_target_name_group() {
    assert_eq!(menu_target_name(&MenuTarget::Group("Frontend".into())), "Frontend");
}

#[test]
fn test_menu_target_name_pane() {
    assert_eq!(menu_target_name(&MenuTarget::Pane(42)), "pane 42");
}

#[test]
fn test_menu_target_name_none() {
    assert_eq!(menu_target_name(&MenuTarget::NoTarget), "menu");
}

#[test]
fn test_build_widget_line_rename_shows_buffer() {
    let mut state = PluginState::default();
    state.rename_state = Some(RenameState {
        target: RenameTarget::Tab(0),
        buffer: "api_new".into(),
    });
    let line = build_widget_line(&state, 40, "12:34:56");
    assert!(line.contains("Rename:"), "should show rename prompt");
    assert!(line.contains("api_new"), "should show buffer contents");
}

#[test]
fn test_build_widget_line_no_rename_no_prompt() {
    let state = PluginState::default();
    let line = build_widget_line(&state, 40, "12:34:56");
    assert!(!line.contains("Rename:"), "should not show rename without state");
}

#[test]
fn test_menu_overlay_applied_when_active_menu_set() {
    let mut state = state_with_tabs(vec![make_tab("api", 0, false)]);
    state.active_menu = Some(MenuState {
        target: MenuTarget::Tab(0),
        selected_index: 0,
        position_line: 1,
        ..Default::default()
    });
    render(&mut state, 20, 30);
}

#[test]
fn test_show_panes_true_renders_panes() {
    let mut tab = make_tab("api", 0, false);
    tab.panes = vec![make_pane(1, "nvim", false)];
    let mut state = state_with_tabs(vec![tab]);
    state.config.sidebar.show_panes = true;
    let (lines, regions) = lines_of(&state, 40);
    assert_eq!(lines.len(), 3, "header + tab + 1 pane = 3 lines when show_panes=true");
    assert!(
        regions.iter().any(|r| matches!(r.target, ClickTarget::Pane(_))),
        "pane click region should exist when show_panes=true"
    );
}

#[test]
fn test_show_panes_false_hides_panes() {
    let mut tab = make_tab("api", 0, false);
    tab.panes = vec![make_pane(1, "nvim", false), make_pane(2, "bash", false)];
    let mut state = state_with_tabs(vec![tab]);
    state.config.sidebar.show_panes = false;
    let (lines, regions) = lines_of(&state, 40);
    assert_eq!(lines.len(), 2, "header + tab only = 2 lines when show_panes=false");
    assert!(
        !regions.iter().any(|r| matches!(r.target, ClickTarget::Pane(_))),
        "no pane click regions when show_panes=false"
    );
}

#[test]
fn test_show_panes_default_is_true() {
    assert!(SidebarConfig::default().show_panes, "show_panes should default to true");
}

#[test]
fn exact_lines_of_a_small_sidebar() {
    let mut tab = make_tab("api", 0, true);
    tab.panes = vec![make_pane(5, "vim", true)];
    let state = state_with_tabs(vec![tab]);
    let (lines, _) = lines_of(&state, 12);
    let bg = "\x1b[48;2;60;56;54m";
    let fg = "\x1b[38;2;235;219;178m";
    assert_eq!(lines[0], format!("{}{}⊟ Default   \x1b[0m", bg, fg));
    assert_eq!(lines[1], format!("{}{}  ▶ api     \x1b[0m", bg, fg));
    assert_eq!(lines[2], format!("{}{}      ● vim \x1b[0m", bg, fg));
}

#[test]
fn collapsed_sidebar_is_a_column_of_marks() {
    let mut state = state_with_tabs(vec![make_tab("api", 0, false)]);
    state.sidebar_collapsed = true;
    let out = render(&mut state, 3, 10);
    assert_eq!(out, vec!["›", "›", "›"]);
    assert!(state.click_regions.is_empty());
}

#[test]
fn frame_has_window_fillers_divider_and_widget() {
    let mut state = state_with_tabs(vec![make_tab("api", 0, false)]);
    state.config.widgets.git.enabled = false;
    let out = render(&mut state, 5, 10);
    assert_eq!(out.len(), 5);
    assert!(out[0].contains("Default"));
    assert!(out[1].contains("api"));
    assert_eq!(out[2], "\x1b[48;2;30;30;46m\x1b[38;2;205;214;244m          ");
    assert_eq!(out[3], format!("\x1b[48;2;30;30;46m\x1b[38;2;69;71;90m{}\x1b[0m", "─".repeat(10)));
    assert_eq!(out[4], "12:34:56  ");
}

#[test]
fn frame_height_matches_rows() {
    for rows in [0usize, 1, 2, 3, 7] {
        let mut state = state_with_tabs(vec![make_tab("api", 0, false)]);
        let out = render(&mut state, rows, 12);
        assert_eq!(out.len(), rows.max(2));
    }
}
