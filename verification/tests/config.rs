use tabby_zj::config::{
    default_bg, default_fg, default_git_interval, default_pet_name, default_sort,
    default_stats_interval, default_theme_name, default_time_fmt, default_width, Config,
    SidebarConfig, ThemeConfig,
};

#[test]
fn test_default_config() {
    let config = Config::default();
    assert_eq!(config.groups.len(), 0);
    assert_eq!(config.sidebar.width, 25);
    assert_eq!(config.sidebar.theme, "catppuccin-mocha");
    assert!(config.widgets.clock.enabled);
    assert!(config.indicators.busy.enabled);
}

#[test]
fn test_stats_widget_defaults() {
    let config = Config::default();
    assert!(!config.widgets.stats.enabled);
    assert_eq!(config.widgets.stats.interval_secs, 30);
}

#[test]
fn test_keybindings_defaults_are_none() {
    let config = Config::default();
    assert!(config.keybindings.cursor_up.is_none());
    assert!(config.keybindings.cursor_down.is_none());
    assert!(config.keybindings.activate.is_none());
    assert!(config.keybindings.dismiss.is_none());
    assert!(config.keybindings.toggle_collapse.is_none());
    assert!(config.keybindings.new_tab.is_none());
}

#[test]
fn test_quota_widget_defaults() {
    let config = Config::default();
    assert!(!config.widgets.quota.enabled);
}

#[test]
fn test_pet_widget_defaults() {
    let config = Config::default();
    assert!(!config.widgets.pet.enabled);
    assert_eq!(config.widgets.pet.name, "Whiskers");
}

#[test]
fn default_values_of_fields() {
    assert_eq!(default_bg(), "#3c3836");
    assert_eq!(default_fg(), "#ebdbb2");
    assert_eq!(default_width(), 25);
    assert_eq!(default_theme_name(), "catppuccin-mocha");
    assert_eq!(default_sort(), "group");
    assert_eq!(default_time_fmt(), "%H:%M:%S");
    assert_eq!(default_git_interval(), 5);
    assert_eq!(default_stats_interval(), 30);
    assert_eq!(default_pet_name(), "Whiskers");
}

#[test]
fn default_theme_and_sidebar() {
    let theme = ThemeConfig::default();
    assert_eq!(theme.bg, "#3c3836");
    assert_eq!(theme.fg, "#ebdbb2");
    assert!(theme.active_bg.is_none());
    assert!(theme.icon.is_none());
    let copy = theme.copy();
    assert_eq!(copy.bg, theme.bg);
    let sidebar = SidebarConfig::default();
    assert_eq!(sidebar.sort_by, "group");
    assert!(!sidebar.show_empty_groups);
}

#[test]
fn default_widgets_and_indicators() {
    let config = Config::default();
    assert_eq!(config.widgets.clock.format, "%H:%M:%S");
    assert!(config.widgets.git.enabled);
    assert!(config.indicators.bell.enabled);
    assert!(config.indicators.input.enabled);
    assert!(config.indicators.busy.icon.is_none());
}
