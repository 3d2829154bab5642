//! The plugin's state: tabs and panes as the host reports them, the user's
//! group assignments, the cursor, the open menu or rename prompt, and the
//! requests for the host that a handler decides on.
use vstd::prelude::*;
use crate::assoc::{AssocMap, KeyEq};
use crate::click::ClickRegion;
use crate::config::Config;
use crate::indicators::IndicatorState;
use crate::menus::MenuItem;
use crate::pet::animation::Animation;
use crate::text::{decimal, is_digit, lemma_decimal_reads_back, occurs_at, parse_unsigned, rfind, rfind_before, unsigned_body};
use crate::widgets::quota::QuotaData;

verus! {

/// A filesystem path the host handed over; the library only carries it.
#[verifier::external_type_specification]
#[verifier::external_body]
pub struct ExPathBuf(std::path::PathBuf);

/// `PathBuf::clone`. Trusted: the copy is the same path.
#[verifier::external_body]
pub(crate) fn clone_path(p: &std::path::PathBuf) -> (r: std::path::PathBuf)
    ensures
        r == *p,
{
    p.clone()
}

/// The key of per-tab settings: a tab's name and position. Written as
/// `name::position`.
#[derive(Debug)]
pub struct TabKey {
    pub name: String,
    pub position: usize,
}

/// The text `name::position` of a key.
pub open spec fn tab_key_text(name: Seq<char>, position: nat) -> Seq<char> {
    name + "::"@ + decimal(position)
}

/// What reading `s` as a key gives: the text before the last `::` as the
/// name, and what follows it read as a `usize`.
pub open spec fn tab_key_parse(s: Seq<char>) -> Option<(Seq<char>, nat)> {
    match rfind(s, "::"@) {
        None => None,
        Some(i) => match parse_unsigned(s.skip(i + 2), usize::MAX as nat) {
            None => None,
            Some(n) => Some((s.take(i), n)),
        },
    }
}

impl View for TabKey {
    type V = (Seq<char>, usize);

    open spec fn view(&self) -> (Seq<char>, usize) {
        (self.name@, self.position)
    }
}

impl KeyEq for TabKey {
    fn key_eq(&self, other: &Self) -> (r: bool) {
        self.position == other.position && self.name == other.name
    }
}

impl Clone for TabKey {
    fn clone(&self) -> (r: Self)
        ensures
            r == *self,
    {
        TabKey { name: self.name.clone(), position: self.position }
    }
}

/// A key that could not be read: no `::`, or no number after the last one.
#[derive(Debug, PartialEq, Eq)]
pub struct TabKeyParseError;

impl TabKeyParseError {
    /// The message of the error.
    pub fn to_string(&self) -> (s: String)
        ensures
            s@ == "invalid TabKey format, expected 'name::position'"@,
    {
        "invalid TabKey format, expected 'name::position'".to_owned()
    }
}

impl TabKey {
    /// The key of the tab named `name` at `position`.
    pub fn new(name: &str, position: usize) -> (k: TabKey)
        ensures
            k.name@ == name@,
            k.position == position,
    {
        TabKey { name: name.to_owned(), position }
    }

    /// The text `name::position` of the key.
    pub fn to_string(&self) -> (s: String)
        ensures
            s@ == tab_key_text(self.name@, self.position as nat),
    {
        let mut s = self.name.clone();
        s.append("::");
        crate::text::push_decimal(&mut s, self.position as u64);
        s
    }

    /// Reads a key from `name::position`; the name may itself hold `::`.
    pub fn parse(s: &str) -> (r: Result<TabKey, TabKeyParseError>)
        ensures
            r matches Ok(k) ==> tab_key_parse(s@) == Some((k.name@, k.position as nat)),
            r is Err ==> tab_key_parse(s@) is None,
    {
        let v = crate::text::chars_of(s);
        let sep = crate::text::chars_of("::");
        match crate::text::rfind_in(&v, &sep) {
            None => Err(TabKeyParseError),
            Some(i) => {
                proof {
                    reveal_strlit("::");
                    crate::text::lemma_rfind_before_bounds(v@, sep@, v@.len() as int);
                }
                assert(i + 2 <= v.len());
                match crate::text::parse_usize_range(&v, i + 2, v.len()) {
                    None => {
                        assert(v@.subrange(i + 2, v@.len() as int) =~= s@.skip(i + 2));
                        Err(TabKeyParseError)
                    },
                    Some(n) => {
                        assert(v@.subrange(i + 2, v@.len() as int) =~= s@.skip(i + 2));
                        let name = crate::text::string_of_range(&v, 0, i);
                        assert(v@.subrange(0, i as int) =~= s@.take(i as int));
                        Ok(TabKey { name, position: n })
                    },
                }
            },
        }
    }
}

impl std::str::FromStr for TabKey {
    type Err = TabKeyParseError;

    fn from_str(s: &str) -> (r: Result<Self, Self::Err>)
        ensures
            r matches Ok(k) ==> tab_key_parse(s@) == Some((k.name@, k.position as nat)),
            r is Err ==> tab_key_parse(s@) is None,
    {
        TabKey::parse(s)
    }
}

/// A pane of a tab, as the sidebar shows it.
pub struct PaneEntry {
    pub id: u32,
    pub is_plugin: bool,
    pub title: String,
    pub is_focused: bool,
    pub is_floating: bool,
    pub cwd: Option<std::path::PathBuf>,
}

impl PaneEntry {
    /// A field-by-field copy.
    pub fn copy(&self) -> (r: PaneEntry)
        ensures
            r == *self,
    {
        PaneEntry {
            id: self.id,
            is_plugin: self.is_plugin,
            title: self.title.clone(),
            is_focused: self.is_focused,
            is_floating: self.is_floating,
            cwd: match &self.cwd {
                Some(p) => Some(clone_path(p)),
                None => None,
            },
        }
    }
}

impl Default for PaneEntry {
    fn default() -> (r: Self)
        ensures
            r.id == 0,
            !r.is_plugin,
            r.title@.len() == 0,
            !r.is_focused,
            !r.is_floating,
            r.cwd is None,
    {
        PaneEntry { id: 0, is_plugin: false, title: String::new(), is_focused: false, is_floating: false, cwd: None }
    }
}

/// A tab, with its panes, as the sidebar shows it.
pub struct TabEntry {
    pub position: usize,
    pub name: String,
    pub active: bool,
    pub panes: Vec<PaneEntry>,
}

impl TabEntry {
    /// A field-by-field copy.
    pub fn copy(&self) -> (r: TabEntry)
        ensures
            r.position == self.position,
            r.name == self.name,
            r.active == self.active,
            r.panes@ == self.panes@,
    {
        let mut panes: Vec<PaneEntry> = Vec::new();
        let mut i: usize = 0;
        while i < self.panes.len()
            invariant
                i <= self.panes@.len(),
                panes@ == self.panes@.take(i as int),
            decreases self.panes@.len() - i,
        {
            panes.push(self.panes[i].copy());
            assert(self.panes@.take(i + 1) =~= self.panes@.take(i as int).push(self.panes@[i as int]));
            i = i + 1;
        }
        assert(self.panes@.take(i as int) =~= self.panes@);
        TabEntry { position: self.position, name: self.name.clone(), active: self.active, panes }
    }
}

/// A tab as the host reports it.
pub struct TabInfo {
    pub position: usize,
    pub name: String,
    pub active: bool,
}

/// A pane as the host reports it.
pub struct PaneInfo {
    pub id: u32,
    pub is_plugin: bool,
    pub title: String,
    pub is_focused: bool,
    pub is_floating: bool,
}

/// The panes of each tab, by tab position, as the host reports them.
pub struct PaneManifest {
    pub panes: AssocMap<usize, Vec<PaneInfo>>,
}

impl KeyEq for usize {
    fn key_eq(&self, other: &Self) -> (r: bool) {
        *self == *other
    }
}

/// The state of the git widget.
pub struct GitStatus {
    pub branch: String,
    pub dirty: usize,
    pub staged: usize,
    pub ahead: usize,
    pub behind: usize,
}

impl Default for GitStatus {
    fn default() -> (r: Self)
        ensures
            r.branch@.len() == 0,
            r.dirty == 0 && r.staged == 0 && r.ahead == 0 && r.behind == 0,
    {
        GitStatus { branch: String::new(), dirty: 0, staged: 0, ahead: 0, behind: 0 }
    }
}

/// What a context menu belongs to.
pub enum MenuTarget {
    NoTarget,
    Tab(usize),
    Pane(u32),
    Group(String),
}

impl Clone for MenuTarget {
    fn clone(&self) -> (r: Self)
        ensures
            r == *self,
    {
        match self {
            MenuTarget::NoTarget => MenuTarget::NoTarget,
            MenuTarget::Tab(p) => MenuTarget::Tab(*p),
            MenuTarget::Pane(id) => MenuTarget::Pane(*id),
            MenuTarget::Group(n) => MenuTarget::Group(n.clone()),
        }
    }
}

impl Default for MenuTarget {
    fn default() -> (r: Self)
        ensures
            r is NoTarget,
    {
        MenuTarget::NoTarget
    }
}

/// An open context menu.
pub struct MenuState {
    pub target: MenuTarget,
    pub selected_index: usize,
    pub position_line: usize,
    pub items_cache: Option<Vec<MenuItem>>,
    pub parent_items: Option<Vec<MenuItem>>,
}

impl Default for MenuState {
    fn default() -> (r: Self)
        ensures
            r.target is NoTarget,
            r.selected_index == 0,
            r.position_line == 0,
            r.items_cache is None,
            r.parent_items is None,
    {
        MenuState {
            target: MenuTarget::NoTarget,
            selected_index: 0,
            position_line: 0,
            items_cache: None,
            parent_items: None,
        }
    }
}

/// What a rename prompt renames.
pub enum RenameTarget {
    NoTarget,
    Tab(usize),
    Pane(u32),
    Group(String),
}

impl Default for RenameTarget {
    fn default() -> (r: Self)
        ensures
            r is NoTarget,
    {
        RenameTarget::NoTarget
    }
}

/// An open rename prompt and what has been typed so far.
pub struct RenameState {
    pub target: RenameTarget,
    pub buffer: String,
}

/// A request for the host that a handler decided on; the host carries the
/// requests out in order after the handler returns.
pub enum HostAction {
    /// Persist the group assignments, collapsed groups, colours, markers and
    /// the collapsed flag as they now stand.
    SaveState,
    SwitchTab(usize),
    FocusPane(u32),
    ShowPane(u32),
    CloseTab(usize),
    ClosePane(u32),
    RenameTab(usize, String),
    RenamePane(u32, String),
    NewTab,
    /// Split the terminal pane with this id: focus it and open a new pane
    /// beside it.
    SplitPane(u32),
    /// Read the configuration again and replace `config` with it.
    ReloadConfig,
    /// Run `git status` in this directory.
    RequestGitStatus(std::path::PathBuf),
    /// Ask for the next timer event in one second.
    SetTimeout,
}

/// The whole state of the plugin.
pub struct PluginState {
    pub config: Config,
    pub plugin_id: u32,
    pub rows: usize,
    pub cols: usize,
    pub tabs: Vec<TabInfo>,
    pub pane_manifest: Option<PaneManifest>,
    pub active_tab_index: usize,
    pub tab_entries: Vec<TabEntry>,
    pub group_assignments: AssocMap<TabKey, String>,
    pub collapsed_groups: AssocMap<String, ()>,
    pub viewport_offset: usize,
    pub max_viewport_offset: usize,
    pub sidebar_collapsed: bool,
    pub cursor_position: Option<usize>,
    pub active_menu: Option<MenuState>,
    pub rename_state: Option<RenameState>,
    pub indicators: AssocMap<String, IndicatorState>,
    pub custom_colors: AssocMap<TabKey, String>,
    pub markers: AssocMap<TabKey, String>,
    pub tick_count: u64,
    pub last_save_tick: u64,
    pub git_status: Option<GitStatus>,
    pub pane_cwds: AssocMap<u32, std::path::PathBuf>,
    pub click_regions: Vec<ClickRegion>,
    pub quota: Option<QuotaData>,
    pub pet_animation: Option<Animation>,
}

impl Default for PluginState {
    fn default() -> (r: Self)
        ensures
            r.config.is_default(),
            r.tabs@.len() == 0,
            r.pane_manifest is None,
            r.tab_entries@.len() == 0,
            r.group_assignments@ == Map::<(Seq<char>, usize), String>::empty(),
            r.collapsed_groups@ == Map::<Seq<char>, ()>::empty(),
            r.viewport_offset == 0,
            !r.sidebar_collapsed,
            r.cursor_position is None,
            r.active_menu is None,
            r.rename_state is None,
            r.indicators@ == Map::<Seq<char>, IndicatorState>::empty(),
            r.custom_colors@ == Map::<(Seq<char>, usize), String>::empty(),
            r.markers@ == Map::<(Seq<char>, usize), String>::empty(),
            r.tick_count == 0,
            r.git_status is None,
            r.pane_cwds@ == Map::<u32, std::path::PathBuf>::empty(),
            r.click_regions@.len() == 0,
            r.rows == 0 && r.cols == 0,
    {
        PluginState {
            config: Config::default(),
            plugin_id: 0,
            rows: 0,
            cols: 0,
            tabs: Vec::new(),
            pane_manifest: None,
            active_tab_index: 0,
            tab_entries: Vec::new(),
            group_assignments: AssocMap::new(),
            collapsed_groups: AssocMap::new(),
            viewport_offset: 0,
            max_viewport_offset: 0,
            sidebar_collapsed: false,
            cursor_position: None,
            active_menu: None,
            rename_state: None,
            indicators: AssocMap::new(),
            custom_colors: AssocMap::new(),
            markers: AssocMap::new(),
            tick_count: 0,
            last_save_tick: 0,
            git_status: None,
            pane_cwds: AssocMap::new(),
            click_regions: Vec::new(),
            quota: None,
            pet_animation: None,
        }
    }
}

/// The entry the sidebar keeps for a pane the host reported, with the
/// working directory last reported for it.
pub open spec fn pane_entry_of(p: PaneInfo, cwds: Map<u32, std::path::PathBuf>) -> PaneEntry {
    PaneEntry {
        id: p.id,
        is_plugin: p.is_plugin,
        title: p.title,
        is_focused: p.is_focused,
        is_floating: p.is_floating,
        cwd: if cwds.contains_key(p.id) {
            Some(cwds[p.id])
        } else {
            None
        },
    }
}

/// The panes the host reported for the tab at `position` (none when there is
/// no manifest or no entry).
pub open spec fn reported_panes(m: Option<PaneManifest>, position: usize) -> Seq<PaneInfo> {
    match m {
        Some(man) => if man.panes@.contains_key(position) {
            man.panes@[position]@
        } else {
            Seq::empty()
        },
        None => Seq::empty(),
    }
}

/// `t` is the entry for the reported tab `info`, given the manifest and the
/// working directories.
pub open spec fn entry_matches(
    t: TabEntry,
    info: TabInfo,
    m: Option<PaneManifest>,
    cwds: Map<u32, std::path::PathBuf>,
) -> bool {
    let ps = reported_panes(m, info.position);
    &&& t.position == info.position
    &&& t.name == info.name
    &&& t.active == info.active
    &&& t.panes@.len() == ps.len()
    &&& forall|j: int| 0 <= j < ps.len() ==> #[trigger] t.panes@[j] == pane_entry_of(ps[j], cwds)
}

fn clone_pane_info_entry(p: &PaneInfo, cwds: &AssocMap<u32, std::path::PathBuf>) -> (r: PaneEntry)
    ensures
        r == pane_entry_of(*p, cwds@),
{
    PaneEntry {
        id: p.id,
        is_plugin: p.is_plugin,
        title: p.title.clone(),
        is_focused: p.is_focused,
        is_floating: p.is_floating,
        cwd: match cwds.get(&p.id) {
            Some(c) => Some(clone_path(c)),
            None => None,
        },
    }
}

impl PluginState {
    /// The key of a reported tab.
    pub fn tab_key(&self, tab: &TabInfo) -> (s: String)
        ensures
            s@ == tab_key_text(tab.name@, tab.position as nat),
    {
        TabKey::new(tab.name.as_str(), tab.position).to_string()
    }

    /// Rebuilds `tab_entries` from the reported tabs, the pane manifest and
    /// the working directories: one entry per reported tab, in order.
    pub fn rebuild_tab_entries(&mut self)
        ensures
            final(self).tab_entries@.len() == old(self).tabs@.len(),
            forall|i: int|
                0 <= i < old(self).tabs@.len() ==> entry_matches(
                    #[trigger] final(self).tab_entries@[i],
                    old(self).tabs@[i],
                    old(self).pane_manifest,
                    old(self).pane_cwds@,
                ),
            *final(self) == (PluginState { tab_entries: final(self).tab_entries, ..*old(self) }),
    {
        let mut entries: Vec<TabEntry> = Vec::new();
        let mut i: usize = 0;
        while i < self.tabs.len()
            invariant
                i <= self.tabs@.len(),
                entries@.len() == i,
                forall|k: int|
                    0 <= k < i ==> entry_matches(
                        #[trigger] entries@[k],
                        self.tabs@[k],
                        self.pane_manifest,
                        self.pane_cwds@,
                    ),
            decreases self.tabs@.len() - i,
        {
            let tab = &self.tabs[i];
            let mut panes: Vec<PaneEntry> = Vec::new();
            let ghost ps = reported_panes(self.pane_manifest, tab.position);
            match &self.pane_manifest {
                Some(m) => {
                    match m.panes.get(&tab.position) {
                        Some(list) => {
                            let mut j: usize = 0;
                            while j < list.len()
                                invariant
                                    j <= list@.len(),
                                    ps == list@,
                                    panes@.len() == j,
                                    forall|q: int|
                                        0 <= q < j ==> #[trigger] panes@[q] == pane_entry_of(
                                            list@[q],
                                            self.pane_cwds@,
                                        ),
                                decreases list@.len() - j,
                            {
                                panes.push(clone_pane_info_entry(&list[j], &self.pane_cwds));
                                j = j + 1;
                            }
                        },
                        None => {},
                    }
                },
                None => {},
            }
            let e = TabEntry {
                position: tab.position,
                name: tab.name.clone(),
                active: tab.active,
                panes,
            };
            entries.push(e);
            i = i + 1;
        }
        self.tab_entries = entries;
    }

    /// The non-plugin panes of the first tab entry at `tab_position` (none
    /// when no entry has that position).
    pub fn terminal_panes_for_tab(&self, tab_position: usize) -> (r: Vec<&PaneEntry>)
        ensures
            match crate::menus::first_tab_at(self.tab_entries@, tab_position) {
                None => r@.len() == 0,
                Some(i) => r@.map_values(|p: &PaneEntry| *p) == self.tab_entries@[i].panes@.filter(
                    |p: PaneEntry| !p.is_plugin,
                ),
            },
    {
        let mut r: Vec<&PaneEntry> = Vec::new();
        match crate::menus::find_tab_at(&self.tab_entries, tab_position) {
            None => r,
            Some(i) => {
                proof {
                    crate::menus::lemma_first_tab_at(self.tab_entries@, tab_position);
                }
                let t = &self.tab_entries[i];
                let ghost f = |p: PaneEntry| !p.is_plugin;
                let ghost g = |p: &PaneEntry| *p;
                let mut j: usize = 0;
                while j < t.panes.len()
                    invariant
                        j <= t.panes@.len(),
                        f == (|p: PaneEntry| !p.is_plugin),
                        g == (|p: &PaneEntry| *p),
                        r@.map_values(g) == t.panes@.take(j as int).filter(f),
                    decreases t.panes@.len() - j,
                {
                    let ghost before = r@;
                    proof {
                        assert(t.panes@.take(j + 1) =~= t.panes@.take(j as int).push(
                            t.panes@[j as int],
                        ));
                        t.panes@.take(j as int).lemma_filter_push(t.panes@[j as int], f);
                    }
                    if !t.panes[j].is_plugin {
                        r.push(&t.panes[j]);
                        assert(r@.map_values(g) =~= before.map_values(g).push(t.panes@[j as int]));
                    }
                    j = j + 1;
                }
                assert(t.panes@.take(j as int) =~= t.panes@);
                r
            },
        }
    }
}

proof fn lemma_rfind_last(s: Seq<char>, p: Seq<char>, n: int, at: int)
    requires
        p.len() <= at + p.len() <= n,
        0 <= at,
        occurs_at(s, p, at),
        forall|i: int| at < i && i + p.len() <= n ==> !occurs_at(s, p, i),
    ensures
        rfind_before(s, p, n) == Some(at),
    decreases n,
{
    if n - p.len() != at {
        assert(!occurs_at(s, p, n - p.len()));
        lemma_rfind_last(s, p, n - 1, at);
    }
}

/// Reading the text `name::position` of a key gives the key back.
pub proof fn lemma_tab_key_round_trip(name: Seq<char>, position: usize)
    ensures
        tab_key_parse(tab_key_text(name, position as nat)) == Some((name, position as nat)),
{
    reveal_strlit("::");
    let d = decimal(position as nat);
    let s = tab_key_text(name, position as nat);
    let l = name.len() as int;
    lemma_decimal_reads_back(position as nat);
    assert(s =~= name + seq![':', ':'] + d);
    assert(s.subrange(l, l + 2) =~= "::"@);
    assert forall|i: int| l < i && i + 2 <= s.len() implies !occurs_at(s, "::"@, i) by {
        assert(is_digit(d[i + 1 - l - 2]));
        assert(s[i + 1] == d[i + 1 - l - 2]);
        assert(s.subrange(i, i + 2)[1] == s[i + 1]);
    }
    lemma_rfind_last(s, "::"@, s.len() as int, l);
    assert(s.skip(l + 2) =~= d);
    assert(s.take(l) =~= name);
    assert(is_digit(d[0]));
    assert(unsigned_body(d) == d);
}

} // verus!
