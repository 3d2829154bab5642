//! The sidebar's configuration and its defaults. Reading the YAML file is the
//! host's business; the library holds the values and says what a missing
//! field defaults to.
use vstd::prelude::*;

verus! {

/// The whole configuration.
pub struct Config {
    pub groups: Vec<GroupConfig>,
    pub sidebar: SidebarConfig,
    pub indicators: IndicatorConfig,
    pub widgets: WidgetConfig,
    pub keybindings: KeybindingsConfig,
}

/// Optional key overrides; `None` keeps the built-in key.
pub struct KeybindingsConfig {
    pub cursor_up: Option<String>,
    pub cursor_down: Option<String>,
    pub activate: Option<String>,
    pub dismiss: Option<String>,
    pub toggle_collapse: Option<String>,
    pub new_tab: Option<String>,
}

/// A named group of tabs, chosen by a pattern on the tab name.
pub struct GroupConfig {
    pub name: String,
    pub pattern: String,
    pub working_dir: Option<String>,
    pub theme: ThemeConfig,
}

/// The colours (hex strings) and icon of a group.
pub struct ThemeConfig {
    pub bg: String,
    pub fg: String,
    pub active_bg: Option<String>,
    pub active_fg: Option<String>,
    pub icon: Option<String>,
}

/// How the sidebar itself looks.
pub struct SidebarConfig {
    pub width: usize,
    pub theme: String,
    pub sort_by: String,
    pub show_panes: bool,
    pub show_empty_groups: bool,
}

/// Which pipe-driven indicators are shown.
pub struct IndicatorConfig {
    pub busy: IndicatorDef,
    pub bell: IndicatorDef,
    pub input: IndicatorDef,
}

/// One indicator's settings.
pub struct IndicatorDef {
    pub enabled: bool,
    pub icon: Option<String>,
    pub color: Option<String>,
}

/// The widgets of the pinned area.
pub struct WidgetConfig {
    pub clock: ClockWidgetConfig,
    pub git: GitWidgetConfig,
    pub stats: StatsWidgetConfig,
    pub quota: QuotaWidgetConfig,
    pub pet: PetWidgetConfig,
}

/// The clock widget.
pub struct ClockWidgetConfig {
    pub enabled: bool,
    pub format: String,
    pub show_date: bool,
}

/// The git status widget.
pub struct GitWidgetConfig {
    pub enabled: bool,
    pub interval_secs: u64,
}

/// The system statistics widget.
pub struct StatsWidgetConfig {
    pub enabled: bool,
    pub interval_secs: u64,
}

/// The quota widget.
pub struct QuotaWidgetConfig {
    pub enabled: bool,
}

/// The pet widget.
pub struct PetWidgetConfig {
    pub enabled: bool,
    pub name: String,
}

/// The default group background.
pub fn default_bg() -> (r: String)
    ensures
        r@ == "#3c3836"@,
{
    "#3c3836".to_owned()
}

/// The default group foreground.
pub fn default_fg() -> (r: String)
    ensures
        r@ == "#ebdbb2"@,
{
    "#ebdbb2".to_owned()
}

/// The default sidebar width.
pub fn default_width() -> (r: usize)
    ensures
        r == 25,
{
    25
}

/// The default theme name.
pub fn default_theme_name() -> (r: String)
    ensures
        r@ == "catppuccin-mocha"@,
{
    "catppuccin-mocha".to_owned()
}

/// The default sort order.
pub fn default_sort() -> (r: String)
    ensures
        r@ == "group"@,
{
    "group".to_owned()
}

/// Panes are shown unless configured otherwise.
pub fn default_show_panes() -> (r: bool)
    ensures
        r,
{
    true
}

/// The default of the flags that are on unless configured otherwise.
pub fn default_true() -> (r: bool)
    ensures
        r,
{
    true
}

/// The default clock format.
pub fn default_time_fmt() -> (r: String)
    ensures
        r@ == "%H:%M:%S"@,
{
    "%H:%M:%S".to_owned()
}

/// The default git polling interval, in seconds.
pub fn default_git_interval() -> (r: u64)
    ensures
        r == 5,
{
    5
}

/// The default statistics polling interval, in seconds.
pub fn default_stats_interval() -> (r: u64)
    ensures
        r == 30,
{
    30
}

/// The default pet name.
pub fn default_pet_name() -> (r: String)
    ensures
        r@ == "Whiskers"@,
{
    "Whiskers".to_owned()
}

impl ThemeConfig {
    /// The theme a group without a `theme` section has.
    pub open spec fn is_default(&self) -> bool {
        &&& self.bg@ == "#3c3836"@
        &&& self.fg@ == "#ebdbb2"@
        &&& self.active_bg is None
        &&& self.active_fg is None
        &&& self.icon is None
    }

    /// A field-by-field copy.
    pub fn copy(&self) -> (r: ThemeConfig)
        ensures
            r == *self,
    {
        ThemeConfig {
            bg: self.bg.clone(),
            fg: self.fg.clone(),
            active_bg: clone_opt_string(&self.active_bg),
            active_fg: clone_opt_string(&self.active_fg),
            icon: clone_opt_string(&self.icon),
        }
    }
}

/// A copy of an optional string.
pub fn clone_opt_string(s: &Option<String>) -> (r: Option<String>)
    ensures
        r == *s,
{
    match s {
        Some(x) => Some(x.clone()),
        None => None,
    }
}

impl Default for ThemeConfig {
    fn default() -> (r: Self)
        ensures
            r.is_default(),
    {
        ThemeConfig { bg: default_bg(), fg: default_fg(), active_bg: None, active_fg: None, icon: None }
    }
}

impl SidebarConfig {
    /// The sidebar settings when the file says nothing.
    pub open spec fn is_default(&self) -> bool {
        &&& self.width == 25
        &&& self.theme@ == "catppuccin-mocha"@
        &&& self.sort_by@ == "group"@
        &&& self.show_panes
        &&& !self.show_empty_groups
    }
}

impl Default for SidebarConfig {
    fn default() -> (r: Self)
        ensures
            r.is_default(),
    {
        SidebarConfig {
            width: default_width(),
            theme: default_theme_name(),
            sort_by: default_sort(),
            show_panes: default_show_panes(),
            show_empty_groups: false,
        }
    }
}

impl IndicatorDef {
    /// An enabled indicator with no icon or colour of its own.
    pub open spec fn is_default(&self) -> bool {
        self.enabled && self.icon is None && self.color is None
    }
}

impl Default for IndicatorDef {
    fn default() -> (r: Self)
        ensures
            r.is_default(),
    {
        IndicatorDef { enabled: true, icon: None, color: None }
    }
}

impl IndicatorConfig {
    /// Every indicator at its default.
    pub open spec fn is_default(&self) -> bool {
        self.busy.is_default() && self.bell.is_default() && self.input.is_default()
    }
}

impl Default for IndicatorConfig {
    fn default() -> (r: Self)
        ensures
            r.is_default(),
    {
        IndicatorConfig {
            busy: IndicatorDef::default(),
            bell: IndicatorDef::default(),
            input: IndicatorDef::default(),
        }
    }
}

impl Default for ClockWidgetConfig {
    fn default() -> (r: Self)
        ensures
            r.enabled,
            r.format@ == "%H:%M:%S"@,
            r.show_date,
    {
        ClockWidgetConfig { enabled: true, format: default_time_fmt(), show_date: true }
    }
}

impl Default for GitWidgetConfig {
    fn default() -> (r: Self)
        ensures
            r.enabled,
            r.interval_secs == 5,
    {
        GitWidgetConfig { enabled: true, interval_secs: default_git_interval() }
    }
}

impl Default for StatsWidgetConfig {
    fn default() -> (r: Self)
        ensures
            !r.enabled,
            r.interval_secs == 30,
    {
        StatsWidgetConfig { enabled: false, interval_secs: default_stats_interval() }
    }
}

impl Default for QuotaWidgetConfig {
    fn default() -> (r: Self)
        ensures
            !r.enabled,
    {
        QuotaWidgetConfig { enabled: false }
    }
}

impl Default for PetWidgetConfig {
    fn default() -> (r: Self)
        ensures
            !r.enabled,
            r.name@ == "Whiskers"@,
    {
        PetWidgetConfig { enabled: false, name: default_pet_name() }
    }
}

impl WidgetConfig {
    /// Every widget at its default.
    pub open spec fn is_default(&self) -> bool {
        &&& self.clock.enabled && self.clock.format@ == "%H:%M:%S"@ && self.clock.show_date
        &&& self.git.enabled && self.git.interval_secs == 5
        &&& !self.stats.enabled && self.stats.interval_secs == 30
        &&& !self.quota.enabled
        &&& !self.pet.enabled && self.pet.name@ == "Whiskers"@
    }
}

impl Default for WidgetConfig {
    fn default() -> (r: Self)
        ensures
            r.is_default(),
    {
        WidgetConfig {
            clock: ClockWidgetConfig::default(),
            git: GitWidgetConfig::default(),
            stats: StatsWidgetConfig::default(),
            quota: QuotaWidgetConfig::default(),
            pet: PetWidgetConfig::default(),
        }
    }
}

impl KeybindingsConfig {
    /// No key overridden.
    pub open spec fn is_default(&self) -> bool {
        &&& self.cursor_up is None
        &&& self.cursor_down is None
        &&& self.activate is None
        &&& self.dismiss is None
        &&& self.toggle_collapse is None
        &&& self.new_tab is None
    }
}

impl Default for KeybindingsConfig {
    fn default() -> (r: Self)
        ensures
            r.is_default(),
    {
        KeybindingsConfig {
            cursor_up: None,
            cursor_down: None,
            activate: None,
            dismiss: None,
            toggle_collapse: None,
            new_tab: None,
        }
    }
}

impl Config {
    /// The configuration of an empty or missing file.
    pub open spec fn is_default(&self) -> bool {
        &&& self.groups@.len() == 0
        &&& self.sidebar.is_default()
        &&& self.indicators.is_default()
        &&& self.widgets.is_default()
        &&& self.keybindings.is_default()
    }
}

impl Default for Config {
    fn default() -> (r: Self)
        ensures
            r.is_default(),
    {
        Config {
            groups: Vec::new(),
            sidebar: SidebarConfig::default(),
            indicators: IndicatorConfig::default(),
            widgets: WidgetConfig::default(),
            keybindings: KeybindingsConfig::default(),
        }
    }
}

} // verus!
