use tabby_zj::assoc::AssocMap;
use tabby_zj::click::{ClickRegion, ClickTarget};
use tabby_zj::color_picker::HslComponent;
use tabby_zj::colors::{hex_to_rgb, rgb_to_hex, Rgb};
use tabby_zj::config::{GroupConfig, ThemeConfig};
use tabby_zj::grouping::assign_groups;
use tabby_zj::input::{handle_key, handle_mouse, BareKey, KeyWithModifier, Mouse};
use tabby_zj::render::clamp_viewport;
use tabby_zj::state::{HostAction, PluginState, TabEntry, TabKey};

#[test]
fn tab_key_text_reads_back() {
    for (name, pos) in [("api", 0usize), ("a::b", 12), ("", 3), ("x:", 99)] {
        let k = TabKey::new(name, pos);
        let back = TabKey::parse(&k.to_string()).unwrap();
        assert_eq!(back.name, name);
        assert_eq!(back.position, pos);
    }
}

#[test]
fn colour_text_reads_back() {
    for (r, g, b) in [(0u8, 0u8, 0u8), (255, 255, 255), (18, 52, 86), (231, 76, 60)] {
        let c = Rgb { r, g, b };
        let back = hex_to_rgb(&rgb_to_hex(&c)).unwrap();
        assert_eq!((back.r, back.g, back.b), (r, g, b));
    }
}

#[test]
fn clicking_a_group_twice_restores_collapsed_set() {
    let mut state = PluginState::default();
    state.click_regions = vec![ClickRegion {
        line: 0,
        target: ClickTarget::Group("Ops".into()),
    }];
    let mut fx: Vec<HostAction> = Vec::new();
    handle_mouse(&mut state, Mouse::LeftClick(0, 0), &mut fx);
    assert!(state.collapsed_groups.contains_key(&"Ops".to_string()));
    handle_mouse(&mut state, Mouse::LeftClick(0, 0), &mut fx);
    assert!(!state.collapsed_groups.contains_key(&"Ops".to_string()));
    assert_eq!(fx.len(), 2);
}

#[test]
fn cursor_down_then_up_returns() {
    for start in 0..3usize {
        let mut state = PluginState::default();
        state.click_regions = (0..3)
            .map(|i| ClickRegion {
                line: i,
                target: ClickTarget::Tab(i),
            })
            .collect();
        state.cursor_position = Some(start);
        let mut fx: Vec<HostAction> = Vec::new();
        handle_key(&mut state, KeyWithModifier::new(BareKey::Down), &mut fx);
        handle_key(&mut state, KeyWithModifier::new(BareKey::Up), &mut fx);
        assert_eq!(state.cursor_position, Some(start));
    }
}

#[test]
fn slider_cycle() {
    for c in [HslComponent::H, HslComponent::S, HslComponent::L] {
        assert_eq!(c.next().prev(), c);
        assert_eq!(c.prev().next(), c);
        assert_eq!(c.next().next().next(), c);
    }
}

#[test]
fn clamping_twice_is_clamping_once() {
    for (o, t, r) in [(0usize, 10usize, 24usize), (20, 30, 24), (7, 30, 24), (99, 5, 1)] {
        let once = clamp_viewport(o, t, r);
        assert_eq!(clamp_viewport(once, t, r), once);
        assert!(once <= o);
    }
}

#[test]
fn configured_groups_come_sorted_after_default() {
    let mk = |name: &str, pattern: &str| GroupConfig {
        name: name.to_string(),
        pattern: pattern.to_string(),
        working_dir: None,
        theme: ThemeConfig::default(),
    };
    let tabs: Vec<TabEntry> = ["zz", "mm", "aa", "other"]
        .iter()
        .enumerate()
        .map(|(i, n)| TabEntry {
            position: i,
            name: n.to_string(),
            active: false,
            panes: vec![],
        })
        .collect();
    let groups = vec![mk("Zeta", "^z"), mk("Mid", "^m"), mk("Alpha", "^a"), mk("Zeta", "q")];
    let result = assign_groups(&tabs, &groups, &AssocMap::new(), &AssocMap::new(), true, "index");
    let names: Vec<&str> = result.iter().map(|g| g.group_name.as_str()).collect();
    assert_eq!(names, vec!["Default", "Alpha", "Mid", "Zeta", "Zeta"]);
    assert_eq!(result[3].tabs.len(), 1);
    assert_eq!(result[4].tabs.len(), 0);
}
