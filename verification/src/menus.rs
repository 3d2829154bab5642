//! Context menus for tabs, panes and groups, and what their items do.
use vstd::prelude::*;
use crate::assoc::without_value;
use crate::state::{HostAction, MenuTarget, PluginState, RenameState, RenameTarget, TabKey, TabEntry};

verus! {

/// One line of a context menu.
#[derive(Debug)]
pub struct MenuItem {
    pub label: String,
    pub action: MenuAction,
    pub is_separator: bool,
}

/// What choosing a menu item does.
#[derive(Debug)]
pub enum MenuAction {
    Noop,
    SwitchTab(usize),
    FocusPane(u32),
    CloseTab(usize),
    ClosePane(u32),
    RenameTab(usize),
    RenamePane(u32),
    RenameGroup(String),
    ToggleGroup(String),
    MoveToGroup(usize, String),
    NewTabInGroup(String),
    Submenu(String, Vec<MenuItem>),
    SetColor(usize, String),
    SetMarker(usize, String),
    SplitPane(u32),
    DeleteGroup(String),
}

/// `it` is a separator: no label, no action.
pub open spec fn is_sep(it: MenuItem) -> bool {
    it.is_separator && it.label@.len() == 0 && it.action is Noop
}

/// `it` is a selectable item with this label.
pub open spec fn is_entry(it: MenuItem, label: Seq<char>) -> bool {
    !it.is_separator && it.label@ == label
}

/// The colours offered by the tab menu: name and hex value.
pub open spec fn color_choice(j: int) -> (Seq<char>, Seq<char>) {
    if j == 0 {
        ("Red"@, "#e74c3c"@)
    } else if j == 1 {
        ("Orange"@, "#e67e22"@)
    } else if j == 2 {
        ("Yellow"@, "#f1c40f"@)
    } else if j == 3 {
        ("Green"@, "#27ae60"@)
    } else if j == 4 {
        ("Blue"@, "#3498db"@)
    } else if j == 5 {
        ("Purple"@, "#9b59b6"@)
    } else if j == 6 {
        ("Pink"@, "#e91e63"@)
    } else if j == 7 {
        ("Cyan"@, "#1abc9c"@)
    } else {
        ("Gray"@, "#95a5a6"@)
    }
}

/// `items` are the colour choices for the tab at `tab_index`: `● Name`,
/// setting the colour's hex value.
pub open spec fn is_color_submenu(items: Seq<MenuItem>, tab_index: usize) -> bool {
    &&& items.len() == 9
    &&& forall|j: int|
        0 <= j < 9 ==> {
            &&& is_entry(#[trigger] items[j], "● "@ + color_choice(j).0)
            &&& items[j].action matches MenuAction::SetColor(p, c) && p == tab_index && c@
                == color_choice(j).1
        }
}

/// The markers offered by the tab menu.
pub open spec fn marker_choice(j: int) -> Seq<char> {
    if j == 0 {
        "🔥"@
    } else if j == 1 {
        "🚀"@
    } else if j == 2 {
        "⭐"@
    } else if j == 3 {
        "🐛"@
    } else {
        "✅"@
    }
}

/// `items` are the marker choices for the tab at `tab_index`: each marker,
/// setting it as the tab's marker.
pub open spec fn is_marker_submenu(items: Seq<MenuItem>, tab_index: usize) -> bool {
    &&& items.len() == 5
    &&& forall|j: int|
        0 <= j < 5 ==> {
            &&& is_entry(#[trigger] items[j], marker_choice(j))
            &&& items[j].action matches MenuAction::SetMarker(p, m) && p == tab_index && m@
                == marker_choice(j)
        }
}

/// `items` offer moving the tab at `tab_index` to each group of `names`, in order.
pub open spec fn is_move_submenu(items: Seq<MenuItem>, tab_index: usize, names: Seq<String>) -> bool {
    &&& items.len() == names.len()
    &&& forall|j: int|
        0 <= j < names.len() ==> {
            &&& is_entry(#[trigger] items[j], "→ "@ + names[j]@)
            &&& items[j].action matches MenuAction::MoveToGroup(p, n) && p == tab_index && n@
                == names[j]@
        }
}

/// The tail shared by both shapes of the tab menu: after a separator the
/// colour and marker submenus, then after another the close item.
pub open spec fn is_tab_menu_tail(items: Seq<MenuItem>, k: int, tab_index: usize) -> bool {
    &&& items.len() == k + 5
    &&& is_sep(items[k])
    &&& is_entry(items[k + 1], "◉ Set Color ▶"@)
    &&& items[k + 1].action matches MenuAction::Submenu(t, subs) && t@ == "Set Color"@
        && is_color_submenu(subs@, tab_index)
    &&& is_entry(items[k + 2], "⚑ Set Marker ▶"@)
    &&& items[k + 2].action matches MenuAction::Submenu(t, subs) && t@ == "Set Marker"@
        && is_marker_submenu(subs@, tab_index)
    &&& is_sep(items[k + 3])
    &&& is_entry(items[k + 4], "✕ Close tab"@)
    &&& items[k + 4].action == MenuAction::CloseTab(tab_index)
}

/// The tab menu: switch, rename, move to a group (only when there are
/// groups), set a colour, set a marker, close.
pub open spec fn is_tab_menu(items: Seq<MenuItem>, tab_index: usize, names: Seq<String>) -> bool {
    &&& items.len() >= 3
    &&& is_entry(items[0], "▶ Switch to tab"@)
    &&& items[0].action == MenuAction::SwitchTab(tab_index)
    &&& is_sep(items[1])
    &&& is_entry(items[2], "✎ Rename"@)
    &&& items[2].action == MenuAction::RenameTab(tab_index)
    &&& if names.len() == 0 {
        is_tab_menu_tail(items, 3, tab_index)
    } else {
        &&& items.len() >= 5
        &&& is_sep(items[3])
        &&& is_entry(items[4], "→ Move to Group ▶"@)
        &&& items[4].action matches MenuAction::Submenu(t, subs) && t@ == "Move to Group"@
            && is_move_submenu(subs@, tab_index, names)
        &&& is_tab_menu_tail(items, 5, tab_index)
    }
}

/// The pane menu: focus, rename, split, close.
pub open spec fn is_pane_menu(items: Seq<MenuItem>, pane_id: u32) -> bool {
    &&& items.len() == 5
    &&& is_entry(items[0], "▶ Focus pane"@)
    &&& items[0].action == MenuAction::FocusPane(pane_id)
    &&& is_sep(items[1])
    &&& is_entry(items[2], "✎ Rename pane"@)
    &&& items[2].action == MenuAction::RenamePane(pane_id)
    &&& is_entry(items[3], "⊞ Split pane"@)
    &&& items[3].action == MenuAction::SplitPane(pane_id)
    &&& is_entry(items[4], "✕ Close pane"@)
    &&& items[4].action == MenuAction::ClosePane(pane_id)
}

/// The group menu: collapse or expand, rename, new tab in the group, delete.
pub open spec fn is_group_menu(items: Seq<MenuItem>, name: Seq<char>) -> bool {
    &&& items.len() == 6
    &&& is_entry(items[0], "⊟ Collapse/Expand"@)
    &&& items[0].action matches MenuAction::ToggleGroup(n) && n@ == name
    &&& is_sep(items[1])
    &&& is_entry(items[2], "✎ Rename group"@)
    &&& items[2].action matches MenuAction::RenameGroup(n) && n@ == name
    &&& is_entry(items[3], "+ New tab in group"@)
    &&& items[3].action matches MenuAction::NewTabInGroup(n) && n@ == name
    &&& is_sep(items[4])
    &&& is_entry(items[5], "✕ Delete group"@)
    &&& items[5].action matches MenuAction::DeleteGroup(n) && n@ == name
}

/// The menu of a target; a menu without a target has no items.
pub open spec fn is_menu_for(items: Seq<MenuItem>, target: MenuTarget, names: Seq<String>) -> bool {
    match target {
        MenuTarget::Tab(p) => is_tab_menu(items, p, names),
        MenuTarget::Pane(id) => is_pane_menu(items, id),
        MenuTarget::Group(n) => is_group_menu(items, n@),
        MenuTarget::NoTarget => items.len() == 0,
    }
}

fn sep() -> (r: MenuItem)
    ensures
        is_sep(r),
{
    MenuItem { label: String::new(), action: MenuAction::Noop, is_separator: true }
}

fn item(label: &str, action: MenuAction) -> (r: MenuItem)
    ensures
        is_entry(r, label@),
        r.action == action,
{
    MenuItem { label: label.to_owned(), action, is_separator: false }
}

fn color_item(tab_index: usize, j: usize) -> (r: MenuItem)
    requires
        j < 9,
    ensures
        is_entry(r, "● "@ + color_choice(j as int).0),
        r.action matches MenuAction::SetColor(p, c) && p == tab_index && c@ == color_choice(
            j as int,
        ).1,
{
    let (name, hex) = if j == 0 {
        ("Red", "#e74c3c")
    } else if j == 1 {
        ("Orange", "#e67e22")
    } else if j == 2 {
        ("Yellow", "#f1c40f")
    } else if j == 3 {
        ("Green", "#27ae60")
    } else if j == 4 {
        ("Blue", "#3498db")
    } else if j == 5 {
        ("Purple", "#9b59b6")
    } else if j == 6 {
        ("Pink", "#e91e63")
    } else if j == 7 {
        ("Cyan", "#1abc9c")
    } else {
        ("Gray", "#95a5a6")
    };
    let mut label = "● ".to_owned();
    label.append(name);
    MenuItem {
        label,
        action: MenuAction::SetColor(tab_index, hex.to_owned()),
        is_separator: false,
    }
}

fn marker_item(tab_index: usize, j: usize) -> (r: MenuItem)
    requires
        j < 5,
    ensures
        is_entry(r, marker_choice(j as int)),
        r.action matches MenuAction::SetMarker(p, m) && p == tab_index && m@ == marker_choice(
            j as int,
        ),
{
    let m = if j == 0 {
        "🔥"
    } else if j == 1 {
        "🚀"
    } else if j == 2 {
        "⭐"
    } else if j == 3 {
        "🐛"
    } else {
        "✅"
    };
    MenuItem { label: m.to_owned(), action: MenuAction::SetMarker(tab_index, m.to_owned()), is_separator: false }
}

/// The context menu of the tab at `tab_index`, offering a move to each of
/// `group_names`.
pub fn build_tab_menu(tab_index: usize, group_names: &[String]) -> (items: Vec<MenuItem>)
    ensures
        is_tab_menu(items@, tab_index, group_names@),
{
    let mut items: Vec<MenuItem> = Vec::new();
    items.push(item("▶ Switch to tab", MenuAction::SwitchTab(tab_index)));
    items.push(sep());
    items.push(item("✎ Rename", MenuAction::RenameTab(tab_index)));
    if group_names.len() > 0 {
        let mut subs: Vec<MenuItem> = Vec::new();
        let mut j: usize = 0;
        while j < group_names.len()
            invariant
                j <= group_names@.len(),
                subs@.len() == j,
                forall|q: int|
                    0 <= q < j ==> {
                        &&& is_entry(#[trigger] subs@[q], "→ "@ + group_names@[q]@)
                        &&& subs@[q].action matches MenuAction::MoveToGroup(p, n) && p
                            == tab_index && n@ == group_names@[q]@
                    },
            decreases group_names@.len() - j,
        {
            let mut label = "→ ".to_owned();
            label.append(group_names[j].as_str());
            subs.push(
                MenuItem {
                    label,
                    action: MenuAction::MoveToGroup(tab_index, group_names[j].clone()),
                    is_separator: false,
                },
            );
            j = j + 1;
        }
        items.push(sep());
        items.push(item("→ Move to Group ▶", MenuAction::Submenu("Move to Group".to_owned(), subs)));
    }
    let mut colors: Vec<MenuItem> = Vec::new();
    let mut j: usize = 0;
    while j < 9
        invariant
            j <= 9,
            colors@.len() == j,
            forall|q: int|
                0 <= q < j ==> {
                    &&& is_entry(#[trigger] colors@[q], "● "@ + color_choice(q).0)
                    &&& colors@[q].action matches MenuAction::SetColor(p, c) && p == tab_index
                        && c@ == color_choice(q).1
                },
        decreases 9 - j,
    {
        colors.push(color_item(tab_index, j));
        j = j + 1;
    }
    let mut markers: Vec<MenuItem> = Vec::new();
    let mut j: usize = 0;
    while j < 5
        invariant
            j <= 5,
            markers@.len() == j,
            forall|q: int|
                0 <= q < j ==> {
                    &&& is_entry(#[trigger] markers@[q], marker_choice(q))
                    &&& markers@[q].action matches MenuAction::SetMarker(p, m) && p == tab_index
                        && m@ == marker_choice(q)
                },
        decreases 5 - j,
    {
        markers.push(marker_item(tab_index, j));
        j = j + 1;
    }
    items.push(sep());
    items.push(item("◉ Set Color ▶", MenuAction::Submenu("Set Color".to_owned(), colors)));
    items.push(item("⚑ Set Marker ▶", MenuAction::Submenu("Set Marker".to_owned(), markers)));
    items.push(sep());
    items.push(item("✕ Close tab", MenuAction::CloseTab(tab_index)));
    items
}

/// The context menu of the pane `pane_id`.
pub fn build_pane_menu(pane_id: u32) -> (items: Vec<MenuItem>)
    ensures
        is_pane_menu(items@, pane_id),
{
    let mut items: Vec<MenuItem> = Vec::new();
    items.push(item("▶ Focus pane", MenuAction::FocusPane(pane_id)));
    items.push(sep());
    items.push(item("✎ Rename pane", MenuAction::RenamePane(pane_id)));
    items.push(item("⊞ Split pane", MenuAction::SplitPane(pane_id)));
    items.push(item("✕ Close pane", MenuAction::ClosePane(pane_id)));
    items
}

/// The context menu of the group `group_name`.
pub fn build_group_menu(group_name: &str) -> (items: Vec<MenuItem>)
    ensures
        is_group_menu(items@, group_name@),
{
    let mut items: Vec<MenuItem> = Vec::new();
    items.push(item("⊟ Collapse/Expand", MenuAction::ToggleGroup(group_name.to_owned())));
    items.push(sep());
    items.push(item("✎ Rename group", MenuAction::RenameGroup(group_name.to_owned())));
    items.push(item("+ New tab in group", MenuAction::NewTabInGroup(group_name.to_owned())));
    items.push(sep());
    items.push(item("✕ Delete group", MenuAction::DeleteGroup(group_name.to_owned())));
    items
}

/// The context menu of a target.
pub fn build_menu_for_target(target: &MenuTarget, group_names: &[String]) -> (items: Vec<MenuItem>)
    ensures
        is_menu_for(items@, *target, group_names@),
{
    match target {
        MenuTarget::Tab(pos) => build_tab_menu(*pos, group_names),
        MenuTarget::Pane(id) => build_pane_menu(*id),
        MenuTarget::Group(name) => build_group_menu(name.as_str()),
        MenuTarget::NoTarget => Vec::new(),
    }
}

/// The first entry at `position`, if any.
pub open spec fn first_tab_at(entries: Seq<TabEntry>, position: usize) -> Option<int>
    decreases entries.len(),
{
    if entries.len() == 0 {
        None
    } else {
        match first_tab_at(entries.drop_last(), position) {
            Some(i) => Some(i),
            None => if entries.last().position == position {
                Some(entries.len() - 1)
            } else {
                None
            },
        }
    }
}

pub proof fn lemma_first_tab_at(entries: Seq<TabEntry>, position: usize)
    ensures
        first_tab_at(entries, position) matches Some(i) ==> 0 <= i < entries.len()
            && entries[i].position == position && forall|k: int|
            0 <= k < i ==> (#[trigger] entries[k]).position != position,
        first_tab_at(entries, position) is None ==> forall|k: int|
            0 <= k < entries.len() ==> (#[trigger] entries[k]).position != position,
    decreases entries.len(),
{
    if entries.len() > 0 {
        lemma_first_tab_at(entries.drop_last(), position);
        assert forall|k: int| 0 <= k < entries.len() - 1 implies entries.drop_last()[k]
            == entries[k] by {}
    }
}

/// The index of the first tab entry at `position`.
pub fn find_tab_at(entries: &Vec<TabEntry>, position: usize) -> (r: Option<usize>)
    ensures
        r matches Some(i) ==> first_tab_at(entries@, position) == Some(i as int),
        r is None ==> first_tab_at(entries@, position) is None,
{
    proof {
        lemma_first_tab_at(entries@, position);
    }
    let mut i: usize = 0;
    while i < entries.len()
        invariant
            i <= entries@.len(),
            forall|k: int| 0 <= k < i ==> (#[trigger] entries@[k]).position != position,
            first_tab_at(entries@, position) matches Some(j) ==> i <= j,
        decreases entries@.len() - i,
    {
        if entries[i].position == position {
            proof {
                lemma_first_tab_at(entries@, position);
            }
            return Some(i);
        }
        proof {
            lemma_first_tab_at(entries@, position);
        }
        i = i + 1;
    }
    proof {
        lemma_first_tab_at(entries@, position);
    }
    None
}

/// The state after `execute_action`, apart from the maps it may change.
pub open spec fn menu_closed(s: PluginState) -> PluginState {
    PluginState { active_menu: None, ..s }
}

/// The per-tab key of the first entry at `position`, if any.
pub open spec fn key_at(entries: Seq<TabEntry>, position: usize) -> Option<(Seq<char>, usize)> {
    match first_tab_at(entries, position) {
        Some(i) => Some((entries[i].name@, entries[i].position)),
        None => None,
    }
}

/// What carrying out `action` does: from `before` to `after`, with the host
/// requests going from `fx0` to `fx1`. The menu closes whatever the action.
pub open spec fn action_effect(
    before: PluginState,
    after: PluginState,
    fx0: Seq<HostAction>,
    fx1: Seq<HostAction>,
    action: MenuAction,
) -> bool {
    &&& after.active_menu is None
    &&& {
            let s0 = menu_closed(before);
            let s1 = after;
            match action {
                MenuAction::Noop | MenuAction::Submenu(_, _) => s1 == s0 && fx1 == fx0,
                MenuAction::SwitchTab(p) => s1 == s0 && fx1 == fx0.push(
                    HostAction::SwitchTab(p),
                ),
                MenuAction::FocusPane(id) => s1 == s0 && fx1 == fx0.push(
                    HostAction::ShowPane(id),
                ),
                MenuAction::CloseTab(i) => s1 == s0 && fx1 == fx0.push(
                    HostAction::CloseTab(i),
                ),
                MenuAction::ClosePane(id) => s1 == s0 && fx1 == fx0.push(
                    HostAction::ClosePane(id),
                ),
                MenuAction::NewTabInGroup(_) => s1 == s0 && fx1 == fx0.push(
                    HostAction::NewTab,
                ),
                MenuAction::RenameTab(p) => fx1 == fx0 && s1 == PluginState {
                    rename_state: s1.rename_state,
                    ..s0
                } && (s1.rename_state matches Some(rs) && rs.target == RenameTarget::Tab(p)
                    && rs.buffer@.len() == 0),
                MenuAction::RenamePane(id) => fx1 == fx0 && s1 == PluginState {
                    rename_state: s1.rename_state,
                    ..s0
                } && (s1.rename_state matches Some(rs) && rs.target == RenameTarget::Pane(id)
                    && rs.buffer@.len() == 0),
                MenuAction::RenameGroup(name) => fx1 == fx0 && s1 == PluginState {
                    rename_state: s1.rename_state,
                    ..s0
                } && (s1.rename_state matches Some(rs) && (rs.target matches RenameTarget::Group(
                    n,
                ) && n@ == name@) && rs.buffer@ == name@),
                MenuAction::ToggleGroup(name) => fx1 == fx0.push(HostAction::SaveState)
                    && s1 == PluginState { collapsed_groups: s1.collapsed_groups, ..s0 } && (if s0.collapsed_groups@.contains_key(name@) {
                    s1.collapsed_groups@ == s0.collapsed_groups@.remove(name@)
                } else {
                    s1.collapsed_groups@ == s0.collapsed_groups@.insert(name@, ())
                }),
                MenuAction::MoveToGroup(p, g) => match key_at(s0.tab_entries@, p) {
                    Some(k) => fx1 == fx0.push(HostAction::SaveState) && s1
                        == PluginState { group_assignments: s1.group_assignments, ..s0 }
                        && s1.group_assignments@ == s0.group_assignments@.insert(k, g),
                    None => s1 == s0 && fx1 == fx0,
                },
                MenuAction::SetColor(p, c) => match key_at(s0.tab_entries@, p) {
                    Some(k) => fx1 == fx0.push(HostAction::SaveState) && s1
                        == PluginState { custom_colors: s1.custom_colors, ..s0 }
                        && s1.custom_colors@ == s0.custom_colors@.insert(k, c),
                    None => s1 == s0 && fx1 == fx0,
                },
                MenuAction::SetMarker(p, m) => match key_at(s0.tab_entries@, p) {
                    Some(k) => fx1 == fx0.push(HostAction::SaveState) && s1
                        == PluginState { markers: s1.markers, ..s0 }
                        && s1.markers@ == s0.markers@.insert(k, m),
                    None => s1 == s0 && fx1 == fx0,
                },
                MenuAction::SplitPane(id) => s1 == s0 && fx1 == fx0.push(
                    HostAction::SplitPane(id),
                ),
                MenuAction::DeleteGroup(name) => {
                    &&& fx1 == fx0.push(HostAction::SaveState)
                    &&& s1 == PluginState {
                        group_assignments: s1.group_assignments,
                        collapsed_groups: s1.collapsed_groups,
                        ..s0
                    }
                    &&& s1.group_assignments@ == without_value(s0.group_assignments@, name@)
                    &&& s1.collapsed_groups@ == s0.collapsed_groups@.remove(name@)
                },
            }
    }
}

/// Carries out a menu action. The menu closes first; actions on the host
/// are requested through `fx`; a state change that must persist requests a
/// save.
pub fn execute_action(state: &mut PluginState, action: MenuAction, fx: &mut Vec<HostAction>)
    ensures
        action_effect(*old(state), *final(state), old(fx)@, final(fx)@, action),
{
    state.active_menu = None;
    match action {
        MenuAction::Noop => {},
        MenuAction::SwitchTab(pos) => {
            fx.push(HostAction::SwitchTab(pos));
        },
        MenuAction::FocusPane(pane_id) => {
            fx.push(HostAction::ShowPane(pane_id));
        },
        MenuAction::CloseTab(idx) => {
            fx.push(HostAction::CloseTab(idx));
        },
        MenuAction::ClosePane(pane_id) => {
            fx.push(HostAction::ClosePane(pane_id));
        },
        MenuAction::RenameTab(pos) => {
            state.rename_state = Some(
                RenameState { target: RenameTarget::Tab(pos), buffer: String::new() },
            );
        },
        MenuAction::RenamePane(pane_id) => {
            state.rename_state = Some(
                RenameState { target: RenameTarget::Pane(pane_id), buffer: String::new() },
            );
        },
        MenuAction::RenameGroup(name) => {
            let buffer = name.clone();
            state.rename_state = Some(RenameState { target: RenameTarget::Group(name), buffer });
        },
        MenuAction::ToggleGroup(name) => {
            if state.collapsed_groups.contains_key(&name) {
                state.collapsed_groups.remove(&name);
            } else {
                state.collapsed_groups.insert(name, ());
            }
            fx.push(HostAction::SaveState);
        },
        MenuAction::MoveToGroup(tab_pos, group_name) => {
            match find_tab_at(&state.tab_entries, tab_pos) {
                Some(i) => {
                    proof {
                        lemma_first_tab_at(state.tab_entries@, tab_pos);
                    }
                    let key = TabKey::new(
                        state.tab_entries[i].name.as_str(),
                        state.tab_entries[i].position,
                    );
                    state.group_assignments.insert(key, group_name);
                    fx.push(HostAction::SaveState);
                },
                None => {},
            }
        },
        MenuAction::NewTabInGroup(_group_name) => {
            fx.push(HostAction::NewTab);
        },
        MenuAction::SetColor(tab_pos, color) => {
            match find_tab_at(&state.tab_entries, tab_pos) {
                Some(i) => {
                    proof {
                        lemma_first_tab_at(state.tab_entries@, tab_pos);
                    }
                    let key = TabKey::new(
                        state.tab_entries[i].name.as_str(),
                        state.tab_entries[i].position,
                    );
                    state.custom_colors.insert(key, color);
                    fx.push(HostAction::SaveState);
                },
                None => {},
            }
        },
        MenuAction::SetMarker(tab_pos, marker) => {
            match find_tab_at(&state.tab_entries, tab_pos) {
                Some(i) => {
                    proof {
                        lemma_first_tab_at(state.tab_entries@, tab_pos);
                    }
                    let key = TabKey::new(
                        state.tab_entries[i].name.as_str(),
                        state.tab_entries[i].position,
                    );
                    state.markers.insert(key, marker);
                    fx.push(HostAction::SaveState);
                },
                None => {},
            }
        },
        MenuAction::SplitPane(pane_id) => {
            fx.push(HostAction::SplitPane(pane_id));
        },
        MenuAction::DeleteGroup(name) => {
            state.group_assignments.remove_value(&name);
            state.collapsed_groups.remove(&name);
            fx.push(HostAction::SaveState);
        },
        MenuAction::Submenu(_, _) => {},
    }
}

/// The menu items that act on the host ask it for exactly that, once, and
/// change nothing but close the menu: switching to, closing and renaming a
/// tab is asked for the tab the item names, focusing, splitting and closing
/// a pane for the pane it names, and a new tab for "new tab in group".
pub proof fn lemma_host_items_request_host(
    s0: PluginState,
    s1: PluginState,
    f0: Seq<HostAction>,
    f1: Seq<HostAction>,
    action: MenuAction,
)
    requires
        action_effect(s0, s1, f0, f1, action),
    ensures
        ({
            let closed = PluginState { active_menu: None, ..s0 };
            let asked = |h: HostAction| s1 == closed && f1.len() == f0.len() + 1 && f1.take(
                f0.len() as int,
            ) == f0 && f1.last() == h;
            match action {
                MenuAction::SwitchTab(p) => asked(HostAction::SwitchTab(p)),
                MenuAction::CloseTab(i) => asked(HostAction::CloseTab(i)),
                MenuAction::FocusPane(id) => asked(HostAction::ShowPane(id)),
                MenuAction::ClosePane(id) => asked(HostAction::ClosePane(id)),
                MenuAction::SplitPane(id) => asked(HostAction::SplitPane(id)),
                MenuAction::NewTabInGroup(_) => asked(HostAction::NewTab),
                MenuAction::Noop | MenuAction::Submenu(_, _) => s1 == closed && f1 == f0,
                _ => true,
            }
        }),
{
    match action {
        MenuAction::SwitchTab(p) => {
            assert(f1.take(f0.len() as int) =~= f0);
        },
        MenuAction::CloseTab(i) => {
            assert(f1.take(f0.len() as int) =~= f0);
        },
        MenuAction::FocusPane(id) => {
            assert(f1.take(f0.len() as int) =~= f0);
        },
        MenuAction::ClosePane(id) => {
            assert(f1.take(f0.len() as int) =~= f0);
        },
        MenuAction::SplitPane(id) => {
            assert(f1.take(f0.len() as int) =~= f0);
        },
        MenuAction::NewTabInGroup(_) => {
            assert(f1.take(f0.len() as int) =~= f0);
        },
        _ => {},
    }
}

} // verus!
