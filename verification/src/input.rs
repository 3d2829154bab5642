//! How the plugin reacts to what happens: keys, mouse clicks and scrolls,
//! tab and pane updates, timer ticks, command results and pipe messages.
//! Each handler changes the state, says whether the sidebar must be drawn
//! again, and appends the requests for the host to `fx`.
use vstd::prelude::*;
use crate::assoc::{AssocMap, entries_view, map_entry_values, lemma_entries_view_map_values};
use crate::click::{ClickRegion, ClickTarget};
use crate::config::GroupConfig;
use crate::indicators::IndicatorState;
use crate::menus::{action_effect, build_menu_for_target, execute_action, is_menu_for, MenuAction, MenuItem};
use crate::state::{
    clone_path, GitStatus, HostAction, MenuState, MenuTarget, PaneManifest, PluginState,
    RenameState, RenameTarget, TabInfo, entry_matches,
};
use crate::text::{splitn3, trim};

verus! {

/// Lines at the bottom of the sidebar that the pinned widgets take.
pub use crate::render::PINNED_HEIGHT;

/// A key without its modifiers.
pub enum BareKey {
    Char(char),
    Up,
    Down,
    Enter,
    Esc,
    Backspace,
    Other,
}

/// A key press.
pub struct KeyWithModifier {
    pub bare_key: BareKey,
    pub no_modifiers: bool,
}

impl KeyWithModifier {
    /// A key pressed without modifiers.
    pub fn new(bare_key: BareKey) -> (k: Self)
        ensures
            k.bare_key == bare_key,
            k.no_modifiers,
    {
        KeyWithModifier { bare_key, no_modifiers: true }
    }

    /// Whether no modifier was held.
    pub fn has_no_modifiers(&self) -> (r: bool)
        ensures
            r == self.no_modifiers,
    {
        self.no_modifiers
    }
}

/// A mouse event: the row and column of a click, the line of a scroll.
pub enum Mouse {
    ScrollUp(usize),
    ScrollDown(usize),
    LeftClick(isize, usize),
    RightClick(isize, usize),
    Other,
}

/// A message sent through the pipe: its text and its named arguments.
pub struct PipeMessage {
    pub payload: Option<String>,
    pub args: AssocMap<String, String>,
}

/// An event the host delivers.
pub enum Event {
    TabUpdate(Vec<TabInfo>),
    PaneUpdate(PaneManifest),
    Timer,
    /// A pane's working directory changed; the id is that of a terminal
    /// pane, `None` for a plugin pane.
    CwdChanged(Option<u32>, std::path::PathBuf),
    Mouse(Mouse),
    Key(KeyWithModifier),
    /// A command finished: its exit code, its standard output (decoded as
    /// UTF-8, invalid sequences replaced), and the context it was started with.
    RunCommandResult(Option<i32>, String, AssocMap<String, String>),
    Other,
}

// ---------------------------------------------------------------------------
// Specifications
// ---------------------------------------------------------------------------

/// The handlers' arithmetic stays within `usize`: the cursor and the menu
/// selection can move one further, and the viewport offset plus the rows
/// fits.
pub open spec fn counters_ok(s: PluginState) -> bool {
    &&& s.viewport_offset + s.rows <= usize::MAX
    &&& (s.cursor_position matches Some(c) ==> c < usize::MAX)
    &&& (s.active_menu matches Some(m) ==> m.selected_index < usize::MAX)
}

/// The target of the first clickable line numbered `line`.
pub open spec fn region_at(regions: Seq<ClickRegion>, line: int) -> Option<ClickTarget>
    decreases regions.len(),
{
    if regions.len() == 0 {
        None
    } else if regions[0].line == line {
        Some(regions[0].target)
    } else {
        region_at(regions.drop_first(), line)
    }
}

/// `set` with `name` added when it was missing and removed when present.
pub open spec fn toggled(set: Map<Seq<char>, ()>, name: Seq<char>) -> Map<Seq<char>, ()> {
    if set.contains_key(name) {
        set.remove(name)
    } else {
        set.insert(name, ())
    }
}

/// What a left click (or activating the cursor line) does to the state and
/// the host requests: a tab is switched to, a pane focused, a group
/// collapsed or expanded (and saved).
pub open spec fn left_click_effect(
    s0: PluginState,
    s1: PluginState,
    f0: Seq<HostAction>,
    f1: Seq<HostAction>,
    target: Option<ClickTarget>,
) -> bool {
    match target {
        Some(ClickTarget::Tab(p)) => s1 == s0 && f1 == f0.push(HostAction::SwitchTab(p)),
        Some(ClickTarget::Group(n)) => s1 == PluginState {
            collapsed_groups: s1.collapsed_groups,
            ..s0
        } && s1.collapsed_groups@ == toggled(s0.collapsed_groups@, n@) && f1 == f0.push(
            HostAction::SaveState,
        ),
        Some(ClickTarget::Pane(id)) => s1 == s0 && f1 == f0.push(HostAction::FocusPane(id)),
        _ => s1 == s0 && f1 == f0,
    }
}

/// Whether a left click on `target` needs a redraw: only a tab, group or pane.
pub open spec fn left_click_result(target: Option<ClickTarget>) -> bool {
    match target {
        Some(ClickTarget::Tab(_)) | Some(ClickTarget::Group(_)) | Some(ClickTarget::Pane(_)) => true,
        _ => false,
    }
}

/// The menu a right click on `target` opens at `line`.
pub open spec fn menu_target_of(target: Option<ClickTarget>) -> Option<MenuTarget> {
    match target {
        Some(ClickTarget::Tab(p)) => Some(MenuTarget::Tab(p)),
        Some(ClickTarget::Group(n)) => Some(MenuTarget::Group(n)),
        Some(ClickTarget::Pane(id)) => Some(MenuTarget::Pane(id)),
        _ => None,
    }
}

/// A freshly opened menu: first item selected, drawn from `line`.
pub open spec fn opened_menu(target: MenuTarget, line: usize) -> MenuState {
    MenuState {
        target,
        selected_index: 0,
        position_line: line,
        items_cache: None,
        parent_items: None,
    }
}

/// `s` with the viewport scrolled so that the cursor line is among the
/// rows above the pinned area.
pub open spec fn ensure_visible(s: PluginState) -> PluginState {
    match s.cursor_position {
        None => s,
        Some(pos) => {
            let rows = if s.rows >= PINNED_HEIGHT {
                s.rows - PINNED_HEIGHT
            } else {
                0
            };
            if rows == 0 {
                s
            } else if pos < s.viewport_offset {
                PluginState { viewport_offset: pos, ..s }
            } else if pos >= s.viewport_offset + rows {
                PluginState { viewport_offset: (pos - (rows - 1)) as usize, ..s }
            } else {
                s
            }
        },
    }
}

/// `s` after moving the cursor one line up (`up`) or down, wrapping around;
/// with no clickable lines the cursor goes away.
pub open spec fn cursor_moved(s: PluginState, up: bool) -> PluginState {
    let total = s.click_regions@.len();
    if total == 0 {
        PluginState { cursor_position: None, ..s }
    } else {
        let cur = match s.cursor_position {
            Some(c) => c as int,
            None => 0,
        };
        let np = if up {
            if cur == 0 {
                total - 1
            } else {
                cur - 1
            }
        } else {
            (cur + 1) % (total as int)
        };
        ensure_visible(PluginState { cursor_position: Some(np as usize), ..s })
    }
}

/// The names of the configured groups, in order.
pub open spec fn group_names(groups: Seq<GroupConfig>) -> Seq<Seq<char>> {
    Seq::new(groups.len(), |i: int| groups[i].name@)
}

/// The number of items in the menu of `target`.
pub open spec fn menu_len(target: MenuTarget, n_groups: nat) -> nat {
    match target {
        MenuTarget::Tab(_) => if n_groups == 0 {
            8
        } else {
            10
        },
        MenuTarget::Pane(_) => 5,
        MenuTarget::Group(_) => 6,
        MenuTarget::NoTarget => 0,
    }
}

/// `a` is the action of the selectable item `idx` of the menu of `target`
/// (separators and submenu headers included as items; separators have no
/// action to carry out).
pub open spec fn action_at(a: MenuAction, target: MenuTarget, n_groups: nat, idx: int) -> bool {
    match target {
        MenuTarget::Tab(p) => if n_groups == 0 {
            ||| idx == 0 && a == MenuAction::SwitchTab(p)
            ||| idx == 2 && a == MenuAction::RenameTab(p)
            ||| (idx == 4 || idx == 5) && a is Submenu
            ||| idx == 7 && a == MenuAction::CloseTab(p)
        } else {
            ||| idx == 0 && a == MenuAction::SwitchTab(p)
            ||| idx == 2 && a == MenuAction::RenameTab(p)
            ||| (idx == 4 || idx == 6 || idx == 7) && a is Submenu
            ||| idx == 9 && a == MenuAction::CloseTab(p)
        },
        MenuTarget::Pane(id) => {
            ||| idx == 0 && a == MenuAction::FocusPane(id)
            ||| idx == 2 && a == MenuAction::RenamePane(id)
            ||| idx == 3 && a == MenuAction::SplitPane(id)
            ||| idx == 4 && a == MenuAction::ClosePane(id)
        },
        MenuTarget::Group(n) => {
            ||| idx == 0 && (a matches MenuAction::ToggleGroup(x) && x@ == n@)
            ||| idx == 2 && (a matches MenuAction::RenameGroup(x) && x@ == n@)
            ||| idx == 3 && (a matches MenuAction::NewTabInGroup(x) && x@ == n@)
            ||| idx == 5 && (a matches MenuAction::DeleteGroup(x) && x@ == n@)
        },
        MenuTarget::NoTarget => false,
    }
}

/// Item `idx` of the menu of `target` exists and is not a separator.
pub open spec fn selectable(target: MenuTarget, n_groups: nat, idx: int) -> bool {
    exists|a: MenuAction| action_at(a, target, n_groups, idx)
}

/// What renaming `target` to `name` does: a tab or pane is renamed by the
/// host; a group's assignments and collapsed flag move to the new name (and
/// are saved); a name of only whitespace changes nothing.
pub open spec fn commit_effect(
    s0: PluginState,
    s1: PluginState,
    f0: Seq<HostAction>,
    f1: Seq<HostAction>,
    target: RenameTarget,
    name: String,
) -> bool {
    if trim(name@).len() == 0 {
        s1 == s0 && f1 == f0
    } else {
        match target {
            RenameTarget::Tab(p) => s1 == s0 && f1 == f0.push(HostAction::RenameTab(p, name)),
            RenameTarget::Pane(id) => s1 == s0 && f1 == f0.push(HostAction::RenamePane(id, name)),
            RenameTarget::Group(old) => {
                &&& s1 == PluginState {
                    group_assignments: s1.group_assignments,
                    collapsed_groups: s1.collapsed_groups,
                    ..s0
                }
                &&& s1.group_assignments@.dom() == s0.group_assignments@.dom()
                &&& forall|k| #[trigger]
                    s0.group_assignments@.contains_key(k) ==> s1.group_assignments@[k] == (
                    if s0.group_assignments@[k]@ == old@ {
                        name
                    } else {
                        s0.group_assignments@[k]
                    })
                &&& s1.collapsed_groups@ == (if s0.collapsed_groups@.contains_key(old@) {
                    s0.collapsed_groups@.remove(old@).insert(name@, ())
                } else {
                    s0.collapsed_groups@
                })
                &&& f1 == f0.push(HostAction::SaveState)
            },
            RenameTarget::NoTarget => s1 == s0 && f1 == f0,
        }
    }
}

/// `s` with the rename buffer changed to `buffer`.
pub open spec fn with_buffer(s: PluginState, s1: PluginState, buffer: Seq<char>) -> bool {
    &&& s1 == PluginState { rename_state: s1.rename_state, ..s }
    &&& s1.rename_state matches Some(r1) && s.rename_state matches Some(r0) && r1.target
        == r0.target && r1.buffer@ == buffer
}

/// What a key does while the rename prompt is open.
pub open spec fn rename_key_effect(
    s0: PluginState,
    s1: PluginState,
    f0: Seq<HostAction>,
    f1: Seq<HostAction>,
    key: KeyWithModifier,
    rs: RenameState,
) -> bool {
    match key.bare_key {
        BareKey::Char(c) => f1 == f0 && with_buffer(s0, s1, rs.buffer@.push(c)),
        BareKey::Backspace => f1 == f0 && with_buffer(
            s0,
            s1,
            if rs.buffer@.len() > 0 {
                rs.buffer@.drop_last()
            } else {
                rs.buffer@
            },
        ),
        BareKey::Enter => commit_effect(
            PluginState { rename_state: None, ..s0 },
            s1,
            f0,
            f1,
            rs.target,
            rs.buffer,
        ),
        BareKey::Esc => f1 == f0 && s1 == PluginState { rename_state: None, ..s0 },
        _ => f1 == f0 && s1 == s0,
    }
}

/// The menu `m` with another selection.
pub open spec fn with_selection(s: PluginState, m: MenuState, idx: usize) -> PluginState {
    PluginState { active_menu: Some(MenuState { selected_index: idx, ..m }), ..s }
}

/// What a key does while a menu is open.
pub open spec fn menu_key_effect(
    s0: PluginState,
    s1: PluginState,
    f0: Seq<HostAction>,
    f1: Seq<HostAction>,
    key: KeyWithModifier,
    m: MenuState,
) -> bool {
    let n = s0.config.groups@.len();
    if !key.no_modifiers {
        s1 == s0 && f1 == f0
    } else {
        match key.bare_key {
            BareKey::Up | BareKey::Char('k') => f1 == f0 && s1 == with_selection(
                s0,
                m,
                if m.selected_index > 0 {
                    (m.selected_index - 1) as usize
                } else {
                    0
                },
            ),
            BareKey::Down | BareKey::Char('j') => {
                let last = if menu_len(m.target, n) > 0 {
                    menu_len(m.target, n) - 1
                } else {
                    0
                };
                f1 == f0 && s1 == with_selection(
                    s0,
                    m,
                    if m.selected_index + 1 <= last {
                        (m.selected_index + 1) as usize
                    } else {
                        last as usize
                    },
                )
            },
            BareKey::Enter => if selectable(m.target, n, m.selected_index as int) {
                exists|a: MenuAction|
                    action_at(a, m.target, n, m.selected_index as int) && action_effect(
                        s0,
                        s1,
                        f0,
                        f1,
                        a,
                    )
            } else {
                s1 == s0 && f1 == f0
            },
            BareKey::Esc => f1 == f0 && s1 == PluginState { active_menu: None, ..s0 },
            _ => s1 == s0 && f1 == f0,
        }
    }
}

/// Whether a key needs a redraw while a menu is open.
pub open spec fn menu_key_result(key: KeyWithModifier) -> bool {
    key.no_modifiers && match key.bare_key {
        BareKey::Up | BareKey::Char('k') | BareKey::Down | BareKey::Char('j') | BareKey::Enter
        | BareKey::Esc => true,
        _ => false,
    }
}

/// What a key does when neither the rename prompt nor a menu is open:
/// up and down (or `k` and `j`) move the cursor, Enter activates the cursor
/// line, Esc (or `q`) removes the cursor.
pub open spec fn nav_key_effect(
    s0: PluginState,
    s1: PluginState,
    f0: Seq<HostAction>,
    f1: Seq<HostAction>,
    key: KeyWithModifier,
) -> bool {
    if !key.no_modifiers {
        s1 == s0 && f1 == f0
    } else {
        match key.bare_key {
            BareKey::Up | BareKey::Char('k') => f1 == f0 && s1 == cursor_moved(s0, true),
            BareKey::Down | BareKey::Char('j') => f1 == f0 && s1 == cursor_moved(s0, false),
            BareKey::Enter => match s0.cursor_position {
                Some(pos) => if pos < s0.click_regions@.len() {
                    left_click_effect(s0, s1, f0, f1, Some(s0.click_regions@[pos as int].target))
                } else {
                    s1 == s0 && f1 == f0
                },
                None => s1 == s0 && f1 == f0,
            },
            BareKey::Esc | BareKey::Char('q') => f1 == f0 && s1 == PluginState {
                cursor_position: None,
                ..s0
            },
            _ => s1 == s0 && f1 == f0,
        }
    }
}

/// Whether a key needs a redraw when neither prompt nor menu is open.
pub open spec fn nav_key_result(key: KeyWithModifier) -> bool {
    key.no_modifiers && match key.bare_key {
        BareKey::Up | BareKey::Char('k') | BareKey::Down | BareKey::Char('j') | BareKey::Enter => true,
        _ => false,
    }
}

// ---------------------------------------------------------------------------
// Mouse
// ---------------------------------------------------------------------------

fn find_region(regions: &Vec<ClickRegion>, line: usize) -> (r: Option<ClickTarget>)
    ensures
        r == region_at(regions@, line as int),
{
    let mut i: usize = 0;
    assert(regions@.skip(0) =~= regions@);
    while i < regions.len()
        invariant
            i <= regions@.len(),
            region_at(regions@, line as int) == region_at(regions@.skip(i as int), line as int),
        decreases regions@.len() - i,
    {
        proof {
            let t = regions@.skip(i as int);
            assert(t[0] == regions@[i as int]);
            assert(t.drop_first() =~= regions@.skip(i + 1));
        }
        if regions[i].line == line {
            return Some(regions[i].target.clone());
        }
        i = i + 1;
    }
    None
}

fn toggle_group(state: &mut PluginState, name: String)
    ensures
        *final(state) == (PluginState { collapsed_groups: final(state).collapsed_groups, ..*old(state) }),
        final(state).collapsed_groups@ == toggled(old(state).collapsed_groups@, name@),
{
    if state.collapsed_groups.contains_key(&name) {
        state.collapsed_groups.remove(&name);
    } else {
        state.collapsed_groups.insert(name, ());
    }
}

/// What a left click on `target` does.
pub fn dispatch_left_click(
    state: &mut PluginState,
    target: Option<ClickTarget>,
    fx: &mut Vec<HostAction>,
) -> (r: bool)
    ensures
        r == left_click_result(target),
        left_click_effect(*old(state), *final(state), old(fx)@, final(fx)@, target),
{
    match target {
        Some(ClickTarget::Tab(pos)) => {
            fx.push(HostAction::SwitchTab(pos));
            true
        },
        Some(ClickTarget::Group(name)) => {
            toggle_group(state, name);
            fx.push(HostAction::SaveState);
            true
        },
        Some(ClickTarget::Pane(id)) => {
            fx.push(HostAction::FocusPane(id));
            true
        },
        _ => false,
    }
}

/// Opens the context menu of `target` at `visual_line`; no target, no menu.
pub fn dispatch_right_click(
    state: &mut PluginState,
    target: Option<ClickTarget>,
    visual_line: usize,
) -> (r: bool)
    ensures
        r == menu_target_of(target) is Some,
        match menu_target_of(target) {
            Some(t) => *final(state) == (PluginState {
                active_menu: Some(opened_menu(t, visual_line)),
                ..*old(state)
            }),
            None => *final(state) == *old(state),
        },
{
    let menu_target = match target {
        Some(ClickTarget::Tab(pos)) => MenuTarget::Tab(pos),
        Some(ClickTarget::Group(name)) => MenuTarget::Group(name),
        Some(ClickTarget::Pane(id)) => MenuTarget::Pane(id),
        _ => return false,
    };
    state.active_menu = Some(
        MenuState {
            target: menu_target,
            selected_index: 0,
            position_line: visual_line,
            items_cache: None,
            parent_items: None,
        },
    );
    true
}

/// Activates the target of a clickable line as a left click does.
pub fn dispatch_click(state: &mut PluginState, target: ClickTarget, fx: &mut Vec<HostAction>) -> (r: bool)
    ensures
        r == left_click_result(Some(target)),
        left_click_effect(*old(state), *final(state), old(fx)@, final(fx)@, Some(target)),
{
    dispatch_left_click(state, Some(target), fx)
}

/// The row `row` of the pane is the divider between the tree and the
/// widget line: the second row from the bottom.
pub open spec fn on_divider(s: PluginState, row: int) -> bool {
    s.rows >= 2 && row == s.rows - 2
}

/// Handles a mouse event: scrolling moves the viewport by three lines; a
/// click on the collapsed sidebar expands it and a click on the divider
/// collapses it; otherwise a click acts on the line under it (the viewport
/// offset added to the row).
pub fn handle_mouse(state: &mut PluginState, mouse: Mouse, fx: &mut Vec<HostAction>) -> (r: bool)
    requires
        match mouse {
            Mouse::LeftClick(row, _) | Mouse::RightClick(row, _) => row < 0 || row
                + old(state).viewport_offset <= usize::MAX,
            _ => true,
        },
    ensures
        ({
            let s0 = *old(state);
            let s1 = *final(state);
            let f0 = old(fx)@;
            let f1 = final(fx)@;
            match mouse {
                Mouse::ScrollUp(_) => r && f1 == f0 && s1 == PluginState {
                    viewport_offset: if s0.viewport_offset >= 3 {
                        (s0.viewport_offset - 3) as usize
                    } else {
                        0
                    },
                    ..s0
                },
                Mouse::ScrollDown(_) => r && f1 == f0 && s1 == PluginState {
                    viewport_offset: if s0.viewport_offset + 3 <= usize::MAX {
                        (s0.viewport_offset + 3) as usize
                    } else {
                        usize::MAX
                    },
                    ..s0
                },
                Mouse::LeftClick(row, _) => if row < 0 {
                    !r && s1 == s0 && f1 == f0
                } else if s0.sidebar_collapsed {
                    r && s1 == PluginState { sidebar_collapsed: false, ..s0 } && f1 == f0.push(
                        HostAction::SaveState,
                    )
                } else if on_divider(s0, row as int) {
                    r && s1 == PluginState { sidebar_collapsed: true, ..s0 } && f1 == f0.push(
                        HostAction::SaveState,
                    )
                } else {
                    let t = region_at(s0.click_regions@, row + s0.viewport_offset);
                    r == left_click_result(t) && left_click_effect(s0, s1, f0, f1, t)
                },
                Mouse::RightClick(row, _) => if row < 0 {
                    !r && s1 == s0 && f1 == f0
                } else {
                    let t = region_at(s0.click_regions@, row + s0.viewport_offset);
                    f1 == f0 && r == menu_target_of(t) is Some && match menu_target_of(t) {
                        Some(mt) => s1 == PluginState {
                            active_menu: Some(opened_menu(mt, row as usize)),
                            ..s0
                        },
                        None => s1 == s0,
                    }
                },
                Mouse::Other => !r && s1 == s0 && f1 == f0,
            }
        }),
{
    match mouse {
        Mouse::ScrollUp(_) => {
            state.viewport_offset = state.viewport_offset.saturating_sub(3);
            true
        },
        Mouse::ScrollDown(_) => {
            state.viewport_offset = state.viewport_offset.saturating_add(3);
            true
        },
        Mouse::LeftClick(row, _col) => {
            if row < 0 {
                return false;
            }
            if state.sidebar_collapsed {
                state.sidebar_collapsed = false;
                fx.push(HostAction::SaveState);
                return true;
            }
            if state.rows >= PINNED_HEIGHT && row as usize == state.rows - PINNED_HEIGHT {
                state.sidebar_collapsed = true;
                fx.push(HostAction::SaveState);
                return true;
            }
            let logical = (row as usize) + state.viewport_offset;
            let target = find_region(&state.click_regions, logical);
            dispatch_left_click(state, target, fx)
        },
        Mouse::RightClick(row, _col) => {
            if row < 0 {
                return false;
            }
            let logical = (row as usize) + state.viewport_offset;
            let target = find_region(&state.click_regions, logical);
            dispatch_right_click(state, target, row as usize)
        },
        Mouse::Other => false,
    }
}

// ---------------------------------------------------------------------------
// Keys
// ---------------------------------------------------------------------------

/// Scrolls the viewport so that the cursor line is visible.
pub fn cursor_ensure_visible(state: &mut PluginState)
    requires
        old(state).viewport_offset + old(state).rows <= usize::MAX,
    ensures
        *final(state) == ensure_visible(*old(state)),
{
    let pos = match state.cursor_position {
        Some(p) => p,
        None => return ,
    };
    let scrollable_rows = state.rows.saturating_sub(PINNED_HEIGHT);
    if scrollable_rows == 0 {
        return ;
    }
    if pos < state.viewport_offset {
        state.viewport_offset = pos;
    } else if pos >= state.viewport_offset + scrollable_rows {
        state.viewport_offset = pos.saturating_sub(scrollable_rows - 1);
    }
}

/// Moves the cursor one clickable line up (`delta < 0`) or down, wrapping
/// around, and scrolls it into view.
pub fn cursor_move(state: &mut PluginState, delta: i32)
    requires
        counters_ok(*old(state)),
    ensures
        *final(state) == cursor_moved(*old(state), delta < 0),
{
    let total = state.click_regions.len();
    if total == 0 {
        state.cursor_position = None;
        return ;
    }
    let current = match state.cursor_position {
        Some(c) => c,
        None => 0,
    };
    let new_pos = if delta < 0 {
        if current == 0 {
            total - 1
        } else {
            current - 1
        }
    } else {
        (current + 1) % total
    };
    state.cursor_position = Some(new_pos);
    cursor_ensure_visible(state);
}

/// Activates the line under the cursor, as a left click would.
pub fn cursor_activate(state: &mut PluginState, fx: &mut Vec<HostAction>)
    ensures
        match old(state).cursor_position {
            Some(pos) => if pos < old(state).click_regions@.len() {
                left_click_effect(
                    *old(state),
                    *final(state),
                    old(fx)@,
                    final(fx)@,
                    Some(old(state).click_regions@[pos as int].target),
                )
            } else {
                *final(state) == *old(state) && final(fx)@ == old(fx)@
            },
            None => *final(state) == *old(state) && final(fx)@ == old(fx)@,
        },
{
    if let Some(pos) = state.cursor_position {
        if pos < state.click_regions.len() {
            let target = state.click_regions[pos].target.clone();
            let _ = dispatch_click(state, target, fx);
        }
    }
}

/// The names of the configured groups.
pub fn config_group_names(groups: &Vec<GroupConfig>) -> (r: Vec<String>)
    ensures
        r@.len() == groups@.len(),
        forall|i: int| 0 <= i < r@.len() ==> #[trigger] r@[i] == groups@[i].name,
{
    let mut r: Vec<String> = Vec::new();
    let mut i: usize = 0;
    while i < groups.len()
        invariant
            i <= groups@.len(),
            r@.len() == i,
            forall|k: int| 0 <= k < i ==> #[trigger] r@[k] == groups@[k].name,
        decreases groups@.len() - i,
    {
        r.push(groups[i].name.clone());
        i = i + 1;
    }
    r
}

/// The items of the menu of `target`.
pub fn build_menu_items(target: &MenuTarget, group_names: &[String]) -> (items: Vec<MenuItem>)
    ensures
        is_menu_for(items@, *target, group_names@),
        items@.len() == menu_len(*target, group_names@.len()),
{
    build_menu_for_target(target, group_names)
}

/// The number of items of the open menu (none without a menu).
pub fn menu_item_count(state: &PluginState) -> (n: usize)
    ensures
        n == match state.active_menu {
            Some(m) => menu_len(m.target, state.config.groups@.len()),
            None => 0,
        },
{
    let names = config_group_names(&state.config.groups);
    match &state.active_menu {
        Some(m) => build_menu_items(&m.target, names.as_slice()).len(),
        None => 0,
    }
}

/// Handles a key while a menu is open.
pub fn handle_menu_key(state: &mut PluginState, key: &KeyWithModifier, fx: &mut Vec<HostAction>) -> (r: bool)
    requires
        old(state).active_menu matches Some(m) && m.selected_index < usize::MAX,
    ensures
        r == menu_key_result(*key),
        menu_key_effect(
            *old(state),
            *final(state),
            old(fx)@,
            final(fx)@,
            *key,
            old(state).active_menu->0,
        ),
{
    if !key.has_no_modifiers() {
        return false;
    }
    match key.bare_key {
        BareKey::Up | BareKey::Char('k') => {
            let menu = state.active_menu.take().unwrap();
            let idx = menu.selected_index.saturating_sub(1);
            state.active_menu = Some(MenuState { selected_index: idx, ..menu });
            true
        },
        BareKey::Down | BareKey::Char('j') => {
            let count = menu_item_count(state);
            let menu = state.active_menu.take().unwrap();
            let last = count.saturating_sub(1);
            let next = menu.selected_index + 1;
            let idx = if next <= last {
                next
            } else {
                last
            };
            state.active_menu = Some(MenuState { selected_index: idx, ..menu });
            true
        },
        BareKey::Enter => {
            let names = config_group_names(&state.config.groups);
            let (mut items, idx) = match &state.active_menu {
                Some(m) => (build_menu_items(&m.target, names.as_slice()), m.selected_index),
                None => (Vec::new(), 0),
            };
            let ghost m = old(state).active_menu->0;
            let ghost n = state.config.groups@.len();
            proof {
                lemma_selectable(items@, m.target, names@, idx as int);
            }
            if idx < items.len() && !items[idx].is_separator {
                let it = items.remove(idx);
                execute_action(state, it.action, fx);
            }
            true
        },
        BareKey::Esc => {
            state.active_menu = None;
            true
        },
        _ => false,
    }
}

proof fn lemma_selectable(items: Seq<MenuItem>, target: MenuTarget, names: Seq<String>, idx: int)
    requires
        is_menu_for(items, target, names),
        items.len() == menu_len(target, names.len()),
    ensures
        (0 <= idx < items.len() && !items[idx].is_separator) == selectable(
            target,
            names.len(),
            idx,
        ),
        0 <= idx < items.len() && !items[idx].is_separator ==> action_at(
            items[idx].action,
            target,
            names.len(),
            idx,
        ),
        forall|a: MenuAction|
            #![trigger action_at(a, target, names.len(), idx)]
            action_at(a, target, names.len(), idx) ==> 0 <= idx < items.len()
                && !items[idx].is_separator,
{
    if 0 <= idx < items.len() && !items[idx].is_separator {
        assert(action_at(items[idx].action, target, names.len(), idx));
    }
}

/// Handles a key while the rename prompt is open: characters are typed,
/// Backspace deletes, Enter renames, Esc cancels.
pub fn handle_rename_key(state: &mut PluginState, key: KeyWithModifier, fx: &mut Vec<HostAction>) -> (r: bool)
    requires
        old(state).rename_state is Some,
    ensures
        r,
        rename_key_effect(
            *old(state),
            *final(state),
            old(fx)@,
            final(fx)@,
            key,
            old(state).rename_state->0,
        ),
{
    match key.bare_key {
        BareKey::Char(c) => {
            let mut rs = state.rename_state.take().unwrap();
            crate::text::push_char(&mut rs.buffer, c);
            state.rename_state = Some(rs);
            true
        },
        BareKey::Backspace => {
            let mut rs = state.rename_state.take().unwrap();
            crate::text::pop_char(&mut rs.buffer);
            state.rename_state = Some(rs);
            true
        },
        BareKey::Enter => {
            let rs = state.rename_state.take().unwrap();
            commit_rename(state, rs.target, rs.buffer, fx);
            true
        },
        BareKey::Esc => {
            state.rename_state = None;
            true
        },
        _ => true,
    }
}

/// Renames `target` to `new_name`, unless the name is only whitespace.
pub fn commit_rename(
    state: &mut PluginState,
    target: RenameTarget,
    new_name: String,
    fx: &mut Vec<HostAction>,
)
    ensures
        commit_effect(*old(state), *final(state), old(fx)@, final(fx)@, target, new_name),
{
    let chars = crate::text::chars_of(new_name.as_str());
    let (lo, hi) = crate::text::trim_bounds(&chars, 0, chars.len());
    assert(chars@.subrange(0, chars@.len() as int) =~= new_name@);
    assert(trim(new_name@).len() == hi - lo);
    if lo == hi {
        return ;
    }
    match target {
        RenameTarget::Tab(pos) => {
            fx.push(HostAction::RenameTab(pos, new_name));
        },
        RenameTarget::Pane(id) => {
            fx.push(HostAction::RenamePane(id, new_name));
        },
        RenameTarget::Group(old_name) => {
            state.group_assignments.replace_values(&old_name, &new_name);
            let ghost cg0 = state.collapsed_groups@;
            if state.collapsed_groups.remove(&old_name) {
                state.collapsed_groups.insert(new_name.clone(), ());
                assert(state.collapsed_groups@ == cg0.remove(old_name@).insert(new_name@, ()));
            } else {
                assert(state.collapsed_groups@ =~= cg0);
            }
            fx.push(HostAction::SaveState);
        },
        RenameTarget::NoTarget => {},
    }
}

/// Handles a key: the rename prompt takes every key while it is open, then
/// an open menu; otherwise the key moves or uses the cursor.
pub fn handle_key(state: &mut PluginState, key: KeyWithModifier, fx: &mut Vec<HostAction>) -> (r: bool)
    requires
        counters_ok(*old(state)),
    ensures
        match old(state).rename_state {
            Some(rs) => r && rename_key_effect(
                *old(state),
                *final(state),
                old(fx)@,
                final(fx)@,
                key,
                rs,
            ),
            None => match old(state).active_menu {
                Some(m) => r == menu_key_result(key) && menu_key_effect(
                    *old(state),
                    *final(state),
                    old(fx)@,
                    final(fx)@,
                    key,
                    m,
                ),
                None => r == nav_key_result(key) && nav_key_effect(
                    *old(state),
                    *final(state),
                    old(fx)@,
                    final(fx)@,
                    key,
                ),
            },
        },
{
    if state.rename_state.is_some() {
        return handle_rename_key(state, key, fx);
    }
    if state.active_menu.is_some() {
        return handle_menu_key(state, &key, fx);
    }
    if !key.has_no_modifiers() {
        return false;
    }
    match key.bare_key {
        BareKey::Up | BareKey::Char('k') => {
            cursor_move(state, -1);
            true
        },
        BareKey::Down | BareKey::Char('j') => {
            cursor_move(state, 1);
            true
        },
        BareKey::Enter => {
            cursor_activate(state, fx);
            true
        },
        BareKey::Esc | BareKey::Char('q') => {
            state.cursor_position = None;
            false
        },
        _ => false,
    }
}

// ---------------------------------------------------------------------------
// Pipe
// ---------------------------------------------------------------------------

/// A command sent through the pipe.
#[derive(Debug, PartialEq)]
pub enum PipeCommand {
    SetIndicator { indicator: String, value: bool, pane_id: Option<String> },
    Collapse(bool),
    Toggle,
    ReloadConfig,
    SetMarker { tab_key: String, emoji: String },
    SetQuota { data: String },
    Unknown(String),
}

/// The plain values of a `PipeCommand`.
pub enum PipeCommandView {
    SetIndicator { indicator: Seq<char>, value: bool, pane_id: Option<Seq<char>> },
    Collapse(bool),
    Toggle,
    ReloadConfig,
    SetMarker { tab_key: Seq<char>, emoji: Seq<char> },
    SetQuota { data: Seq<char> },
    Unknown(Seq<char>),
}

/// The view of an optional string.
pub open spec fn opt_view(s: Option<String>) -> Option<Seq<char>> {
    match s {
        Some(x) => Some(x@),
        None => None,
    }
}

impl View for PipeCommand {
    type V = PipeCommandView;

    open spec fn view(&self) -> PipeCommandView {
        match self {
            PipeCommand::SetIndicator { indicator, value, pane_id } => PipeCommandView::SetIndicator {
                indicator: indicator@,
                value: *value,
                pane_id: opt_view(*pane_id),
            },
            PipeCommand::Collapse(b) => PipeCommandView::Collapse(*b),
            PipeCommand::Toggle => PipeCommandView::Toggle,
            PipeCommand::ReloadConfig => PipeCommandView::ReloadConfig,
            PipeCommand::SetMarker { tab_key, emoji } => PipeCommandView::SetMarker {
                tab_key: tab_key@,
                emoji: emoji@,
            },
            PipeCommand::SetQuota { data } => PipeCommandView::SetQuota { data: data@ },
            PipeCommand::Unknown(s) => PipeCommandView::Unknown(s@),
        }
    }
}

/// A flag value that means "on": `1`, `true` or `on`.
pub open spec fn is_on(s: Seq<char>) -> bool {
    s == "1"@ || s == "true"@ || s == "on"@
}

/// The `pane_id` argument of a pipe message, if given.
pub open spec fn pane_arg(args: Map<Seq<char>, String>) -> Option<Seq<char>> {
    if args.contains_key("pane_id"@) {
        Some(args["pane_id"@]@)
    } else {
        None
    }
}

/// The command a pipe payload stands for. The payload is split at its first
/// two colons into a command, a value and a rest:
/// `toggle` and `config` need nothing more; `collapse:V` collapses when `V`
/// is on; `quota:DATA` keeps everything after the first colon;
/// `marker:KEY:EMOJI` needs all three parts; `busy|bell|input:V[:PANE]`
/// sets an indicator, for the pane given as an argument or else as the
/// third part; anything else is unknown.
pub open spec fn pipe_command(payload: Seq<char>, pane: Option<Seq<char>>) -> PipeCommandView {
    let parts = splitn3(payload, ':');
    if parts.len() == 1 && parts[0].len() == 0 {
        PipeCommandView::Unknown(payload)
    } else {
        let cmd = parts[0];
        if cmd == "toggle"@ {
            PipeCommandView::Toggle
        } else if cmd == "config"@ {
            PipeCommandView::ReloadConfig
        } else if parts.len() < 2 {
            PipeCommandView::Unknown(payload)
        } else {
            let rest = parts[1];
            if cmd == "collapse"@ {
                PipeCommandView::Collapse(is_on(rest))
            } else if cmd == "quota"@ {
                PipeCommandView::SetQuota {
                    data: if parts.len() > 2 {
                        rest + ":"@ + parts[2]
                    } else {
                        rest
                    },
                }
            } else if cmd == "marker"@ {
                if parts.len() < 3 {
                    PipeCommandView::Unknown(payload)
                } else {
                    PipeCommandView::SetMarker { tab_key: rest, emoji: parts[2] }
                }
            } else if cmd == "busy"@ || cmd == "bell"@ || cmd == "input"@ {
                PipeCommandView::SetIndicator {
                    indicator: cmd,
                    value: is_on(rest),
                    pane_id: match pane {
                        Some(p) => Some(p),
                        None => if parts.len() > 2 {
                            Some(parts[2])
                        } else {
                            None
                        },
                    },
                }
            } else {
                PipeCommandView::Unknown(payload)
            }
        }
    }
}

proof fn lemma_splitn3(v: Seq<char>, c1: Option<int>, c2: Option<int>)
    requires
        c1 == crate::text::find_char_from(v, ':', 0),
        c1 matches Some(i) ==> c2 == crate::text::find_char_from(v, ':', i + 1),
    ensures
        match c1 {
            None => splitn3(v, ':') == seq![v],
            Some(i) => 0 <= i < v.len() && match c2 {
                None => splitn3(v, ':') == seq![v.take(i), v.skip(i + 1)],
                Some(j) => i < j < v.len() && splitn3(v, ':') == seq![
                    v.take(i),
                    v.subrange(i + 1, j),
                    v.skip(j + 1),
                ],
            },
        },
{
    crate::text::lemma_find_char_from_bounds(v, ':', 0);
    match c1 {
        None => {},
        Some(i) => {
            crate::text::lemma_find_char_skip(v, ':', i + 1, 0);
            crate::text::lemma_find_char_from_bounds(v, ':', i + 1);
            let rest = v.skip(i + 1);
            match c2 {
                None => {},
                Some(j) => {
                    assert(rest.take(j - i - 1) =~= v.subrange(i + 1, j));
                    assert(rest.skip(j - i - 1 + 1) =~= v.skip(j + 1));
                },
            }
        },
    }
}

/// Reads a pipe payload and its arguments as a command.
pub fn parse_pipe(payload: &str, args: &AssocMap<String, String>) -> (cmd: PipeCommand)
    ensures
        cmd@ == pipe_command(payload@, pane_arg(args@)),
{
    proof {
        reveal_strlit(":");
    }
    let v = crate::text::chars_of(payload);
    let n = v.len();
    let c1 = crate::text::find_char_in(&v, ':', 0);
    let c2 = match c1 {
        Some(i) => {
            proof {
                crate::text::lemma_find_char_from_bounds(v@, ':', 0);
            }
            crate::text::find_char_in(&v, ':', i + 1)
        },
        None => None,
    };
    proof {
        let g1 = match c1 {
            Some(i) => Some(i as int),
            None => None,
        };
        let g2 = match c2 {
            Some(j) => Some(j as int),
            None => None,
        };
        lemma_splitn3(v@, g1, g2);
    }
    let ghost parts = splitn3(payload@, ':');
    // bounds of the command and of the value
    let (cmd_end, nparts) = match c1 {
        Some(i) => (i, if c2.is_some() {
            3usize
        } else {
            2usize
        }),
        None => (n, 1usize),
    };
    assert(parts.len() == nparts);
    assert(parts[0] == v@.subrange(0, cmd_end as int));
    if nparts == 1 && n == 0 {
        return PipeCommand::Unknown(payload.to_owned());
    }
    if crate::text::range_is(&v, 0, cmd_end, "toggle") {
        return PipeCommand::Toggle;
    }
    if crate::text::range_is(&v, 0, cmd_end, "config") {
        return PipeCommand::ReloadConfig;
    }
    if nparts < 2 {
        return PipeCommand::Unknown(payload.to_owned());
    }
    let rest_lo = cmd_end + 1;
    let rest_hi = match c2 {
        Some(j) => j,
        None => n,
    };
    assert(parts[1] == v@.subrange(rest_lo as int, rest_hi as int));
    let third_lo = if nparts == 3 {
        rest_hi + 1
    } else {
        n
    };
    proof {
        if nparts == 3 {
            assert(parts[2] == v@.subrange(third_lo as int, n as int));
        }
    }
    let on = crate::text::range_is(&v, rest_lo, rest_hi, "1") || crate::text::range_is(
        &v,
        rest_lo,
        rest_hi,
        "true",
    ) || crate::text::range_is(&v, rest_lo, rest_hi, "on");
    if crate::text::range_is(&v, 0, cmd_end, "collapse") {
        return PipeCommand::Collapse(on);
    }
    if crate::text::range_is(&v, 0, cmd_end, "quota") {
        let mut data = crate::text::string_of_range(&v, rest_lo, rest_hi);
        if nparts > 2 {
            data.append(":");
            let third = crate::text::vec_range(&v, third_lo, n);
            crate::text::push_chars(&mut data, &third);
        }
        return PipeCommand::SetQuota { data };
    }
    if crate::text::range_is(&v, 0, cmd_end, "marker") {
        if nparts < 3 {
            return PipeCommand::Unknown(payload.to_owned());
        }
        return PipeCommand::SetMarker {
            tab_key: crate::text::string_of_range(&v, rest_lo, rest_hi),
            emoji: crate::text::string_of_range(&v, third_lo, n),
        };
    }
    if crate::text::range_is(&v, 0, cmd_end, "busy") || crate::text::range_is(
        &v,
        0,
        cmd_end,
        "bell",
    ) || crate::text::range_is(&v, 0, cmd_end, "input") {
        let key = "pane_id".to_owned();
        let pane_id = match args.get(&key) {
            Some(p) => Some(p.clone()),
            None => if nparts > 2 {
                Some(crate::text::string_of_range(&v, third_lo, n))
            } else {
                None
            },
        };
        return PipeCommand::SetIndicator {
            indicator: crate::text::string_of_range(&v, 0, cmd_end),
            value: on,
            pane_id,
        };
    }
    PipeCommand::Unknown(payload.to_owned())
}

/// The indicators of the slot `key` after setting `which` to `value`; a slot
/// not yet seen starts with every indicator off.
pub open spec fn indicator_set(
    m: Map<Seq<char>, IndicatorState>,
    key: Seq<char>,
    which: Seq<char>,
    value: bool,
) -> IndicatorState {
    let prior = if m.contains_key(key) {
        m[key]
    } else {
        IndicatorState { busy: false, bell: false, input: false, busy_frame: 0 }
    };
    if which == "busy"@ {
        IndicatorState { busy: value, ..prior }
    } else if which == "bell"@ {
        IndicatorState { bell: value, ..prior }
    } else {
        IndicatorState { input: value, ..prior }
    }
}

/// Handles a pipe message: collapse, toggle or reload the sidebar, or set an
/// indicator (for the given pane, or the `"default"` slot); markers and
/// quotas are acknowledged. Unknown commands and empty messages are not.
pub fn handle_pipe(state: &mut PluginState, msg: PipeMessage, fx: &mut Vec<HostAction>) -> (r: bool)
    ensures
        ({
            let s0 = *old(state);
            let s1 = *final(state);
            let f0 = old(fx)@;
            let f1 = final(fx)@;
            match msg.payload {
                None => !r && s1 == s0 && f1 == f0,
                Some(p) => match pipe_command(p@, pane_arg(msg.args@)) {
                    PipeCommandView::Collapse(v) => r && s1 == PluginState {
                        sidebar_collapsed: v,
                        ..s0
                    } && f1 == f0.push(HostAction::SaveState),
                    PipeCommandView::Toggle => r && s1 == PluginState {
                        sidebar_collapsed: !s0.sidebar_collapsed,
                        ..s0
                    } && f1 == f0.push(HostAction::SaveState),
                    PipeCommandView::ReloadConfig => r && s1 == s0 && f1 == f0.push(
                        HostAction::ReloadConfig,
                    ),
                    PipeCommandView::SetIndicator { indicator, value, pane_id } => {
                        let key = match pane_id {
                            Some(k) => k,
                            None => "default"@,
                        };
                        &&& r
                        &&& f1 == f0
                        &&& s1 == PluginState { indicators: s1.indicators, ..s0 }
                        &&& s1.indicators@ == s0.indicators@.insert(
                            key,
                            indicator_set(s0.indicators@, key, indicator, value),
                        )
                    },
                    PipeCommandView::SetMarker { .. } | PipeCommandView::SetQuota { .. } => r && s1
                        == s0 && f1 == f0,
                    PipeCommandView::Unknown(_) => !r && s1 == s0 && f1 == f0,
                },
            }
        }),
{
    let payload = match &msg.payload {
        Some(p) => p,
        None => return false,
    };
    match parse_pipe(payload.as_str(), &msg.args) {
        PipeCommand::Collapse(value) => {
            state.sidebar_collapsed = value;
            fx.push(HostAction::SaveState);
            true
        },
        PipeCommand::Toggle => {
            state.sidebar_collapsed = !state.sidebar_collapsed;
            fx.push(HostAction::SaveState);
            true
        },
        PipeCommand::ReloadConfig => {
            fx.push(HostAction::ReloadConfig);
            true
        },
        PipeCommand::SetIndicator { indicator, value, pane_id } => {
            let id = match pane_id {
                Some(p) => p,
                None => "default".to_owned(),
            };
            let mut entry = match state.indicators.get(&id) {
                Some(e) => *e,
                None => IndicatorState::default(),
            };
            let iv = crate::text::chars_of(indicator.as_str());
            if crate::text::range_is(&iv, 0, iv.len(), "busy") {
                entry.busy = value;
            } else if crate::text::range_is(&iv, 0, iv.len(), "bell") {
                entry.bell = value;
            } else {
                entry.input = value;
            }
            proof {
                assert(iv@.subrange(0, iv@.len() as int) =~= indicator@);
            }
            state.indicators.insert(id, entry);
            true
        },
        PipeCommand::SetMarker { .. } => true,
        PipeCommand::SetQuota { .. } => true,
        PipeCommand::Unknown(_) => false,
    }
}

// ---------------------------------------------------------------------------
// Events
// ---------------------------------------------------------------------------

/// A pane's indicators one timer tick later: a busy spinner advances (and
/// wraps around at the largest `usize`).
pub open spec fn ticked(s: IndicatorState) -> IndicatorState {
    if s.busy {
        IndicatorState {
            busy_frame: if s.busy_frame == usize::MAX {
                0
            } else {
                (s.busy_frame + 1) as usize
            },
            ..s
        }
    } else {
        s
    }
}

/// Advances every busy spinner by one frame.
pub fn tick_indicators(m: &mut AssocMap<String, IndicatorState>)
    ensures
        final(m)@.dom() == old(m)@.dom(),
        forall|k: Seq<char>| #[trigger]
            old(m)@.contains_key(k) ==> final(m)@[k] == ticked(old(m)@[k]),
{
    let ghost f = |s: IndicatorState| ticked(s);
    let mut rest: Vec<(String, IndicatorState)> = Vec::new();
    std::mem::swap(&mut rest, &mut m.entries);
    let ghost all = rest@;
    let mut done: Vec<(String, IndicatorState)> = Vec::new();
    while rest.len() > 0
        invariant
            rest@.len() <= all.len(),
            rest@ == all.skip(all.len() - rest@.len()),
            done@ == map_entry_values(all.take(all.len() - rest@.len()), f),
            f == (|s: IndicatorState| ticked(s)),
        decreases rest@.len(),
    {
        let ghost i = all.len() - rest@.len();
        let (k, mut st) = rest.remove(0);
        proof {
            assert(rest@ =~= all.skip(all.len() - rest@.len()));
        }
        if st.busy {
            st.busy_frame = if st.busy_frame == usize::MAX {
                0
            } else {
                st.busy_frame + 1
            };
        }
        done.push((k, st));
        proof {
            assert(done@ =~= map_entry_values(all.take(i + 1), f));
        }
    }
    assert(all.take(all.len() as int) =~= all);
    m.entries = done;
    proof {
        lemma_entries_view_map_values(all, f);
    }
}

/// The index of the first active tab, or 0.
pub open spec fn first_active(tabs: Seq<TabInfo>) -> usize {
    match first_active_opt(tabs) {
        Some(i) => i as usize,
        None => 0,
    }
}

/// The index of the first active tab.
pub open spec fn first_active_opt(tabs: Seq<TabInfo>) -> Option<int>
    decreases tabs.len(),
{
    if tabs.len() == 0 {
        None
    } else if tabs[0].active {
        Some(0)
    } else {
        match first_active_opt(tabs.drop_first()) {
            Some(i) => Some(i + 1),
            None => None,
        }
    }
}

fn find_active(tabs: &Vec<TabInfo>) -> (r: usize)
    ensures
        r as int == match first_active_opt(tabs@) {
            Some(i) => i,
            None => 0,
        },
{
    let mut i: usize = 0;
    assert(tabs@.skip(0) =~= tabs@);
    while i < tabs.len()
        invariant
            i <= tabs@.len(),
            first_active_opt(tabs@) == match first_active_opt(tabs@.skip(i as int)) {
                Some(k) => Some(k + i),
                None => None,
            },
        decreases tabs@.len() - i,
    {
        proof {
            let t = tabs@.skip(i as int);
            assert(t[0] == tabs@[i as int]);
            assert(t.drop_first() =~= tabs@.skip(i + 1));
        }
        if tabs[i].active {
            return i;
        }
        i = i + 1;
    }
    0
}

/// All the reported tabs are rebuilt as entries (see `entry_matches`).
pub open spec fn entries_rebuilt(s0: PluginState, s1: PluginState) -> bool {
    &&& s1.tab_entries@.len() == s0.tabs@.len()
    &&& forall|i: int|
        0 <= i < s0.tabs@.len() ==> entry_matches(
            #[trigger] s1.tab_entries@[i],
            s0.tabs@[i],
            s0.pane_manifest,
            s0.pane_cwds@,
        )
}

/// The first working directory on record, if any.
pub open spec fn first_cwd(m: AssocMap<u32, std::path::PathBuf>) -> Option<std::path::PathBuf> {
    if m.entries@.len() > 0 {
        Some(m.entries@[0].1)
    } else {
        None
    }
}

/// The result of a command is a git status when its context says so.
pub open spec fn is_git_context(ctx: Map<Seq<char>, String>) -> bool {
    ctx.contains_key("type"@) && ctx["type"@]@ == "git_status"@
}

/// Handles an event of the host. Tab and pane updates rebuild the entries;
/// a timer tick advances the spinners, asks for the git status every
/// `GIT_POLL_INTERVAL` ticks (from the first known directory) and asks for
/// the next tick; a working directory is recorded for a terminal pane; a git
/// status result replaces the widget's state (none when the command failed).
pub fn handle_event(state: &mut PluginState, event: Event, fx: &mut Vec<HostAction>) -> (r: bool)
    requires
        match event {
            Event::Timer => old(state).tick_count < u64::MAX,
            Event::Mouse(m) => match m {
                Mouse::LeftClick(row, _) | Mouse::RightClick(row, _) => row < 0 || row
                    + old(state).viewport_offset <= usize::MAX,
                _ => true,
            },
            Event::Key(_) => counters_ok(*old(state)),
            Event::RunCommandResult(code, out, ctx) => is_git_context(ctx@) && code == Some(0i32)
                ==> !crate::workers::git_output_panics(out@),
            _ => true,
        },
    ensures
        ({
            let s0 = *old(state);
            let s1 = *final(state);
            let f0 = old(fx)@;
            let f1 = final(fx)@;
            match event {
                Event::TabUpdate(tabs) => {
                    let mid = PluginState {
                        active_tab_index: first_active(tabs@),
                        tabs: tabs,
                        ..s0
                    };
                    &&& r
                    &&& f1 == f0
                    &&& s1 == PluginState { tab_entries: s1.tab_entries, ..mid }
                    &&& entries_rebuilt(mid, s1)
                },
                Event::PaneUpdate(m) => {
                    let mid = PluginState { pane_manifest: Some(m), ..s0 };
                    &&& r
                    &&& f1 == f0
                    &&& s1 == PluginState { tab_entries: s1.tab_entries, ..mid }
                    &&& entries_rebuilt(mid, s1)
                },
                Event::Timer => {
                    let t = (s0.tick_count + 1) as u64;
                    &&& r
                    &&& s1 == PluginState { tick_count: t, indicators: s1.indicators, ..s0 }
                    &&& s1.indicators@.dom() == s0.indicators@.dom()
                    &&& forall|k: Seq<char>| #[trigger]
                        s0.indicators@.contains_key(k) ==> s1.indicators@[k] == ticked(
                            s0.indicators@[k],
                        )
                    &&& f1 == if t % crate::workers::GIT_POLL_INTERVAL == 1 && first_cwd(
                        s0.pane_cwds,
                    ) is Some {
                        f0.push(HostAction::RequestGitStatus(first_cwd(s0.pane_cwds)->0)).push(
                            HostAction::SetTimeout,
                        )
                    } else {
                        f0.push(HostAction::SetTimeout)
                    }
                },
                Event::CwdChanged(pane, cwd) => r && f1 == f0 && match pane {
                    Some(id) => {
                        let mid = PluginState { pane_cwds: s1.pane_cwds, ..s0 };
                        &&& s1.pane_cwds@ == s0.pane_cwds@.insert(id, cwd)
                        &&& s1 == PluginState { tab_entries: s1.tab_entries, ..mid }
                        &&& entries_rebuilt(mid, s1)
                    },
                    None => s1 == s0,
                },
                Event::Mouse(m) => {
                    let t = match m {
                        Mouse::LeftClick(row, _) => if row >= 0 && !s0.sidebar_collapsed {
                            region_at(s0.click_regions@, row + s0.viewport_offset)
                        } else {
                            None
                        },
                        _ => None,
                    };
                    match m {
                        Mouse::ScrollUp(_) => r && f1 == f0 && s1 == PluginState {
                            viewport_offset: if s0.viewport_offset >= 3 {
                                (s0.viewport_offset - 3) as usize
                            } else {
                                0
                            },
                            ..s0
                        },
                        Mouse::ScrollDown(_) => r && f1 == f0 && s1 == PluginState {
                            viewport_offset: if s0.viewport_offset + 3 <= usize::MAX {
                                (s0.viewport_offset + 3) as usize
                            } else {
                                usize::MAX
                            },
                            ..s0
                        },
                        Mouse::LeftClick(row, _) => if row < 0 {
                            !r && s1 == s0 && f1 == f0
                        } else if s0.sidebar_collapsed {
                            r && s1 == PluginState { sidebar_collapsed: false, ..s0 } && f1
                                == f0.push(HostAction::SaveState)
                        } else if on_divider(s0, row as int) {
                            r && s1 == PluginState { sidebar_collapsed: true, ..s0 } && f1
                                == f0.push(HostAction::SaveState)
                        } else {
                            r == left_click_result(t) && left_click_effect(s0, s1, f0, f1, t)
                        },
                        Mouse::RightClick(row, _) => if row < 0 {
                            !r && s1 == s0 && f1 == f0
                        } else {
                            let rt = region_at(s0.click_regions@, row + s0.viewport_offset);
                            f1 == f0 && r == menu_target_of(rt) is Some && match menu_target_of(
                                rt,
                            ) {
                                Some(mt) => s1 == PluginState {
                                    active_menu: Some(opened_menu(mt, row as usize)),
                                    ..s0
                                },
                                None => s1 == s0,
                            }
                        },
                        Mouse::Other => !r && s1 == s0 && f1 == f0,
                    }
                },
                Event::Key(key) => match s0.rename_state {
                    Some(rs) => r && rename_key_effect(s0, s1, f0, f1, key, rs),
                    None => match s0.active_menu {
                        Some(m) => r == menu_key_result(key) && menu_key_effect(
                            s0,
                            s1,
                            f0,
                            f1,
                            key,
                            m,
                        ),
                        None => r == nav_key_result(key) && nav_key_effect(s0, s1, f0, f1, key),
                    },
                },
                Event::RunCommandResult(code, out, ctx) => if is_git_context(ctx@) {
                    &&& r
                    &&& f1 == f0
                    &&& s1 == PluginState { git_status: s1.git_status, ..s0 }
                    &&& if code == Some(0i32) {
                        s1.git_status matches Some(g) && g@ == crate::workers::git_status_of(out@)
                    } else {
                        s1.git_status is None
                    }
                } else {
                    !r && s1 == s0 && f1 == f0
                },
                Event::Other => !r && s1 == s0 && f1 == f0,
            }
        }),
{
    match event {
        Event::TabUpdate(tabs) => {
            state.active_tab_index = find_active(&tabs);
            state.tabs = tabs;
            state.rebuild_tab_entries();
            true
        },
        Event::PaneUpdate(manifest) => {
            state.pane_manifest = Some(manifest);
            state.rebuild_tab_entries();
            true
        },
        Event::Timer => {
            state.tick_count = state.tick_count + 1;
            tick_indicators(&mut state.indicators);
            if state.tick_count % crate::workers::GIT_POLL_INTERVAL == 1 {
                if state.pane_cwds.entries.len() > 0 {
                    let cwd = clone_path(&state.pane_cwds.entries[0].1);
                    fx.push(HostAction::RequestGitStatus(cwd));
                }
            }
            fx.push(HostAction::SetTimeout);
            true
        },
        Event::CwdChanged(pane, cwd) => {
            if let Some(id) = pane {
                state.pane_cwds.insert(id, cwd);
                state.rebuild_tab_entries();
            }
            true
        },
        Event::Mouse(mouse) => handle_mouse(state, mouse, fx),
        Event::Key(key) => handle_key(state, key, fx),
        Event::RunCommandResult(exit_code, stdout, ctx) => {
            let type_key = "type".to_owned();
            let is_git = match ctx.get(&type_key) {
                Some(t) => crate::text::str_eq(t.as_str(), crate::workers::ctx_type_git()),
                None => false,
            };
            if is_git {
                if exit_code == Some(0i32) {
                    state.git_status = Some(crate::workers::parse_git_status(stdout.as_str()));
                } else {
                    state.git_status = None;
                }
                true
            } else {
                false
            }
        },
        Event::Other => false,
    }
}

/// Toggling a group twice leaves the collapsed groups as they were.
pub proof fn lemma_toggle_twice(set: Map<Seq<char>, ()>, name: Seq<char>)
    ensures
        toggled(toggled(set, name), name) == set,
{
    if set.contains_key(name) {
        assert(set[name] == ());
        assert(toggled(toggled(set, name), name) =~= set);
    } else {
        assert(toggled(toggled(set, name), name) =~= set);
    }
}

/// Moving the cursor down and then up puts it back on the line it was on.
pub proof fn lemma_cursor_down_up(s: PluginState)
    requires
        s.cursor_position matches Some(c) && c < s.click_regions@.len(),
    ensures
        cursor_moved(cursor_moved(s, false), true).cursor_position == s.cursor_position,
{
    let total = s.click_regions@.len() as int;
    let c = s.cursor_position->0 as int;
    let s1 = cursor_moved(s, false);
    if c + 1 == total {
        vstd::arithmetic::div_mod::lemma_mod_self_0(total);
    } else {
        vstd::arithmetic::div_mod::lemma_small_mod((c + 1) as nat, total as nat);
    }
    let np = (c + 1) % total;
    let t = PluginState { cursor_position: Some(np as usize), ..s };
    assert(s1 == ensure_visible(t));
    assert(ensure_visible(t).cursor_position == t.cursor_position);
    assert(ensure_visible(t).click_regions == t.click_regions);
    assert(s.click_regions@.len() == s.click_regions.len());
    assert(0 <= np < total);
    assert(s1.cursor_position == Some(np as usize));
    assert(s1.click_regions@.len() == total);
    let back = if np == 0 {
        total - 1
    } else {
        np - 1
    };
    assert(back == c);
    let t2 = PluginState { cursor_position: Some(back as usize), ..s1 };
    assert(cursor_moved(s1, true) == ensure_visible(t2));
    assert(ensure_visible(t2).cursor_position == t2.cursor_position);
}

/// Moving the cursor up and then down puts it back on the line it was on.
pub proof fn lemma_cursor_up_down(s: PluginState)
    requires
        s.cursor_position matches Some(c) && c < s.click_regions@.len(),
    ensures
        cursor_moved(cursor_moved(s, true), false).cursor_position == s.cursor_position,
{
    let total = s.click_regions@.len() as int;
    let c = s.cursor_position->0 as int;
    let s1 = cursor_moved(s, true);
    let np = if c == 0 {
        total - 1
    } else {
        c - 1
    };
    let t = PluginState { cursor_position: Some(np as usize), ..s };
    assert(s1 == ensure_visible(t));
    assert(ensure_visible(t).cursor_position == t.cursor_position);
    assert(ensure_visible(t).click_regions == t.click_regions);
    assert(s1.cursor_position == Some(np as usize));
    assert(s1.click_regions@.len() == total);
    assert(s.click_regions@.len() == s.click_regions.len());
    if c == 0 {
        vstd::arithmetic::div_mod::lemma_mod_self_0(total);
    } else {
        vstd::arithmetic::div_mod::lemma_small_mod(c as nat, total as nat);
    }
    let fwd = (np + 1) % total;
    assert(fwd == c);
    let t2 = PluginState { cursor_position: Some(fwd as usize), ..s1 };
    assert(cursor_moved(s1, false) == ensure_visible(t2));
    assert(ensure_visible(t2).cursor_position == t2.cursor_position);
}

/// Enter in the rename prompt commits the name typed: for a tab or a pane
/// the host is asked to rename exactly that tab or pane to exactly that
/// name, the prompt closes and nothing else changes; a name of only
/// whitespace asks nothing and only closes the prompt.
pub proof fn lemma_rename_enter_requests_rename(
    s0: PluginState,
    s1: PluginState,
    f0: Seq<HostAction>,
    f1: Seq<HostAction>,
    key: KeyWithModifier,
)
    requires
        key.bare_key == BareKey::Enter,
        s0.rename_state is Some,
        rename_key_effect(s0, s1, f0, f1, key, s0.rename_state->0),
    ensures
        ({
            let rs = s0.rename_state->0;
            let closed = PluginState { rename_state: None, ..s0 };
            &&& trim(rs.buffer@).len() == 0 ==> s1 == closed && f1 == f0
            &&& trim(rs.buffer@).len() > 0 ==> match rs.target {
                RenameTarget::Tab(p) => s1 == closed && f1.len() == f0.len() + 1 && f1.take(
                    f0.len() as int,
                ) == f0 && f1.last() == HostAction::RenameTab(p, rs.buffer),
                RenameTarget::Pane(id) => s1 == closed && f1.len() == f0.len() + 1 && f1.take(
                    f0.len() as int,
                ) == f0 && f1.last() == HostAction::RenamePane(id, rs.buffer),
                _ => true,
            }
        }),
{
    let rs = s0.rename_state->0;
    if trim(rs.buffer@).len() > 0 {
        match rs.target {
            RenameTarget::Tab(p) => {
                assert(f1 == f0.push(HostAction::RenameTab(p, rs.buffer)));
                assert(f1.take(f0.len() as int) =~= f0);
            },
            RenameTarget::Pane(id) => {
                assert(f1 == f0.push(HostAction::RenamePane(id, rs.buffer)));
                assert(f1.take(f0.len() as int) =~= f0);
            },
            _ => {},
        }
    }
}

} // verus!
