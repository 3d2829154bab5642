//! Drawing the sidebar: one line per group, tab and pane, the context menu
//! laid over them, the scrolling window and the pinned line at the bottom.
use vstd::prelude::*;
use crate::click::{ClickRegion, ClickTarget};
use crate::colors::{ansi_bg, ansi_bg_text, ansi_fg, ansi_fg_text, hex_cuts_char, SidebarTheme, RESET, REVERSE};
use crate::indicators::{indicators_text, render_indicators, IndicatorState};
use crate::assoc::AssocMap;
use crate::config::ThemeConfig;
use crate::grouping::{all_grouped_match, assign_groups, group_plan, grouped_matches, GroupPlan, GroupedTabs};
use crate::config::GroupConfig;
use crate::input::{build_menu_items, menu_len};
use crate::widgets::{pinned_left, pinned_line, pinned_right, render_pinned};
use crate::menus::{is_menu_for, MenuItem};
use crate::state::{MenuState, MenuTarget, PaneEntry, PluginState, TabEntry, TabKey};
use crate::text::{append_str, chars_of, decimal, pad_visible_string, push_char, push_decimal};

verus! {

/// Rows at the bottom of the sidebar that do not scroll: the divider and
/// the widget line.
pub const PINNED_HEIGHT: usize = 2;

/// The largest offset that still fills the window, applied to `offset`.
pub open spec fn clamped_offset(offset: nat, total_lines: nat, rows: nat) -> nat {
    let max_offset = if total_lines >= rows {
        (total_lines - rows) as nat
    } else {
        0
    };
    if offset <= max_offset {
        offset
    } else {
        max_offset
    }
}

/// Limits a scroll offset so that the window of `rows` lines does not run
/// past the last of `total_lines` lines.
pub fn clamp_viewport(offset: usize, total_lines: usize, rows: usize) -> (r: usize)
    ensures
        r == clamped_offset(offset as nat, total_lines as nat, rows as nat),
{
    let max_offset = total_lines.saturating_sub(rows);
    if offset <= max_offset {
        offset
    } else {
        max_offset
    }
}

/// A limited offset leaves the window within the lines, and limiting it
/// again changes nothing.
pub proof fn lemma_clamp_viewport(offset: nat, total_lines: nat, rows: nat)
    ensures
        clamped_offset(offset, total_lines, rows) <= offset,
        total_lines >= rows ==> clamped_offset(offset, total_lines, rows) + rows <= total_lines,
        total_lines < rows ==> clamped_offset(offset, total_lines, rows) == 0,
        clamped_offset(clamped_offset(offset, total_lines, rows), total_lines, rows) == clamped_offset(
            offset,
            total_lines,
            rows,
        ),
{
}

/// `s` cut or padded with spaces to `cols` characters; unchanged when
/// `cols` is zero.
pub fn pad_visible(s: &str, cols: usize) -> (r: String)
    ensures
        r@ == crate::text::pad_visible(s@, cols as nat),
{
    let v = chars_of(s);
    pad_visible_string(&v, cols)
}

/// A line of the sidebar: colours, reverse video where the cursor is, the
/// text and a reset.
pub open spec fn sidebar_line_text(bg: Seq<char>, fg: Seq<char>, text: Seq<char>, cursor: bool) -> Seq<char> {
    bg + fg + (if cursor {
        REVERSE@
    } else {
        Seq::empty()
    }) + text + RESET@
}

/// Puts a line of the sidebar together (see `sidebar_line_text`).
pub fn format_sidebar_line(bg: &str, fg: &str, text: &str, cursor: bool) -> (r: String)
    ensures
        r@ == sidebar_line_text(bg@, fg@, text@, cursor),
{
    let mut r = bg.to_owned();
    append_str(&mut r, fg);
    if cursor {
        append_str(&mut r, REVERSE);
    }
    append_str(&mut r, text);
    append_str(&mut r, RESET);
    assert(r@ =~= sidebar_line_text(bg@, fg@, text@, cursor));
    r
}

/// What a menu is called in messages.
pub open spec fn menu_target_text(target: MenuTarget) -> Seq<char> {
    match target {
        MenuTarget::Tab(pos) => seq!['t', 'a', 'b', ' '] + decimal(pos as nat),
        MenuTarget::Pane(id) => seq!['p', 'a', 'n', 'e', ' '] + decimal(id as nat),
        MenuTarget::Group(name) => name@,
        MenuTarget::NoTarget => seq!['m', 'e', 'n', 'u'],
    }
}

/// The name of a menu's target: `tab 2`, `pane 42`, the group's name, or
/// `menu`.
pub fn menu_target_name(target: &MenuTarget) -> (r: String)
    ensures
        r@ == menu_target_text(*target),
{
    let mut r = String::new();
    match target {
        MenuTarget::Tab(pos) => {
            push_char(&mut r, 't');
            push_char(&mut r, 'a');
            push_char(&mut r, 'b');
            push_char(&mut r, ' ');
            push_decimal(&mut r, *pos as u64);
        },
        MenuTarget::Pane(id) => {
            push_char(&mut r, 'p');
            push_char(&mut r, 'a');
            push_char(&mut r, 'n');
            push_char(&mut r, 'e');
            push_char(&mut r, ' ');
            push_decimal(&mut r, *id as u64);
        },
        MenuTarget::Group(name) => {
            r = name.clone();
        },
        MenuTarget::NoTarget => {
            push_char(&mut r, 'm');
            push_char(&mut r, 'e');
            push_char(&mut r, 'n');
            push_char(&mut r, 'u');
        },
    }
    assert(r@ =~= menu_target_text(*target));
    r
}

/// The key under which the indicators of a pane are kept: `%` and its id.
pub open spec fn pane_key(id: u32) -> Seq<char> {
    seq!['%'] + decimal(id as nat)
}

/// The indicators of a tab: those of its terminal panes together; the
/// spinner shows the frame of the last busy pane.
pub open spec fn fold_indicators(panes: Seq<PaneEntry>, inds: Map<Seq<char>, IndicatorState>) -> IndicatorState
    decreases panes.len(),
{
    if panes.len() == 0 {
        IndicatorState { busy: false, bell: false, input: false, busy_frame: 0 }
    } else {
        let acc = fold_indicators(panes.drop_last(), inds);
        let p = panes.last();
        let k = pane_key(p.id);
        if !p.is_plugin && inds.contains_key(k) {
            let ind = inds[k];
            IndicatorState {
                busy: acc.busy || ind.busy,
                bell: acc.bell || ind.bell,
                input: acc.input || ind.input,
                busy_frame: if ind.busy {
                    ind.busy_frame
                } else {
                    acc.busy_frame
                },
            }
        } else {
            acc
        }
    }
}

/// The indicators kept for a pane that is not a plugin, if any are kept.
pub open spec fn pane_indicator(p: PaneEntry, inds: Map<Seq<char>, IndicatorState>) -> Option<IndicatorState> {
    if !p.is_plugin && inds.contains_key(pane_key(p.id)) {
        Some(inds[pane_key(p.id)])
    } else {
        None
    }
}

/// A tab is busy, rings or waits for input exactly when one of its terminal
/// panes does, whatever its other panes say.
pub proof fn lemma_tab_indicators_any_pane(panes: Seq<PaneEntry>, inds: Map<Seq<char>, IndicatorState>)
    ensures
        fold_indicators(panes, inds).busy <==> exists|i: int|
            0 <= i < panes.len() && (#[trigger] pane_indicator(panes[i], inds) matches Some(ind)
                && ind.busy),
        fold_indicators(panes, inds).bell <==> exists|i: int|
            0 <= i < panes.len() && (#[trigger] pane_indicator(panes[i], inds) matches Some(ind)
                && ind.bell),
        fold_indicators(panes, inds).input <==> exists|i: int|
            0 <= i < panes.len() && (#[trigger] pane_indicator(panes[i], inds) matches Some(ind)
                && ind.input),
    decreases panes.len(),
{
    if panes.len() > 0 {
        let init = panes.drop_last();
        let n = panes.len() - 1;
        lemma_tab_indicators_any_pane(init, inds);
        assert forall|i: int| 0 <= i < init.len() implies pane_indicator(init[i], inds) == pane_indicator(
            panes[i],
            inds,
        ) by {
            assert(init[i] == panes[i]);
        }
        let last = pane_indicator(panes[n], inds);
        assert(last == pane_indicator(panes.last(), inds));
        if exists|i: int|
            0 <= i < panes.len() && (#[trigger] pane_indicator(panes[i], inds) matches Some(ind)
                && ind.busy) {
            let i = choose|i: int|
                0 <= i < panes.len() && (#[trigger] pane_indicator(panes[i], inds) matches Some(ind)
                    && ind.busy);
            if i < n {
                assert(pane_indicator(init[i], inds) == pane_indicator(panes[i], inds));
            }
        }
        if exists|i: int|
            0 <= i < panes.len() && (#[trigger] pane_indicator(panes[i], inds) matches Some(ind)
                && ind.bell) {
            let i = choose|i: int|
                0 <= i < panes.len() && (#[trigger] pane_indicator(panes[i], inds) matches Some(ind)
                    && ind.bell);
            if i < n {
                assert(pane_indicator(init[i], inds) == pane_indicator(panes[i], inds));
            }
        }
        if exists|i: int|
            0 <= i < panes.len() && (#[trigger] pane_indicator(panes[i], inds) matches Some(ind)
                && ind.input) {
            let i = choose|i: int|
                0 <= i < panes.len() && (#[trigger] pane_indicator(panes[i], inds) matches Some(ind)
                    && ind.input);
            if i < n {
                assert(pane_indicator(init[i], inds) == pane_indicator(panes[i], inds));
            }
        }
        if exists|i: int|
            0 <= i < init.len() && (#[trigger] pane_indicator(init[i], inds) matches Some(ind)
                && ind.busy) {
            let i = choose|i: int|
                0 <= i < init.len() && (#[trigger] pane_indicator(init[i], inds) matches Some(ind)
                    && ind.busy);
            assert(pane_indicator(panes[i], inds) == pane_indicator(init[i], inds));
        }
        if exists|i: int|
            0 <= i < init.len() && (#[trigger] pane_indicator(init[i], inds) matches Some(ind)
                && ind.bell) {
            let i = choose|i: int|
                0 <= i < init.len() && (#[trigger] pane_indicator(init[i], inds) matches Some(ind)
                    && ind.bell);
            assert(pane_indicator(panes[i], inds) == pane_indicator(init[i], inds));
        }
        if exists|i: int|
            0 <= i < init.len() && (#[trigger] pane_indicator(init[i], inds) matches Some(ind)
                && ind.input) {
            let i = choose|i: int|
                0 <= i < init.len() && (#[trigger] pane_indicator(init[i], inds) matches Some(ind)
                    && ind.input);
            assert(pane_indicator(panes[i], inds) == pane_indicator(init[i], inds));
        }
    }
}

/// The indicator text of a tab (see `fold_indicators`).
pub fn aggregate_tab_indicators(state: &PluginState, tab: &TabEntry) -> (r: String)
    ensures
        r@ == indicators_text(fold_indicators(tab.panes@, state.indicators@)),
{
    let mut combined = IndicatorState::default();
    let mut i: usize = 0;
    while i < tab.panes.len()
        invariant
            i <= tab.panes@.len(),
            combined == fold_indicators(tab.panes@.take(i as int), state.indicators@),
        decreases tab.panes@.len() - i,
    {
        let pane = &tab.panes[i];
        assert(tab.panes@.take(i + 1).drop_last() =~= tab.panes@.take(i as int));
        assert(tab.panes@.take(i + 1).last() == tab.panes@[i as int]);
        if !pane.is_plugin {
            let mut key = String::new();
            push_char(&mut key, '%');
            push_decimal(&mut key, pane.id as u64);
            assert(key@ =~= pane_key(pane.id));
            match state.indicators.get(&key) {
                Some(ind) => {
                    if ind.busy {
                        combined.busy = true;
                        combined.busy_frame = ind.busy_frame;
                    }
                    if ind.bell {
                        combined.bell = true;
                    }
                    if ind.input {
                        combined.input = true;
                    }
                },
                None => {},
            }
        }
        i = i + 1;
    }
    assert(tab.panes@.take(tab.panes@.len() as int) =~= tab.panes@);
    render_indicators(&combined)
}

/// The position of the first active tab entry.
pub open spec fn active_position(entries: Seq<TabEntry>) -> Option<usize>
    decreases entries.len(),
{
    if entries.len() == 0 {
        None
    } else if entries[0].active {
        Some(entries[0].position)
    } else {
        active_position(entries.drop_first())
    }
}

/// The line of the first region that leads to the tab at `pos`.
pub open spec fn tab_region_line(regions: Seq<ClickRegion>, pos: usize) -> Option<usize>
    decreases regions.len(),
{
    if regions.len() == 0 {
        None
    } else if regions[0].target == ClickTarget::Tab(pos) {
        Some(regions[0].line)
    } else {
        tab_region_line(regions.drop_first(), pos)
    }
}

/// The scroll offset after bringing the line of the active tab into a
/// window of `rows` lines: scrolled up to it when above, down just far
/// enough when below.
pub open spec fn scrolled_to_active(offset: usize, entries: Seq<TabEntry>, regions: Seq<ClickRegion>, rows: usize) -> usize {
    match active_position(entries) {
        None => offset,
        Some(pos) => match tab_region_line(regions, pos) {
            None => offset,
            Some(line) => if line < offset {
                line
            } else if rows > 0 && line >= offset + rows {
                if line >= rows - 1 {
                    (line - (rows - 1)) as usize
                } else {
                    0
                }
            } else {
                offset
            },
        },
    }
}

/// Scrolls so that the line of the active tab is in view.
pub fn auto_scroll_to_active(state: &mut PluginState, regions: &[ClickRegion], scrollable_rows: usize)
    requires
        old(state).viewport_offset + scrollable_rows <= usize::MAX,
    ensures
        *final(state) == (PluginState {
            viewport_offset: scrolled_to_active(
                old(state).viewport_offset,
                old(state).tab_entries@,
                regions@,
                scrollable_rows,
            ),
            ..*old(state)
        }),
{
    let mut i: usize = 0;
    let mut pos: Option<usize> = None;
    assert(state.tab_entries@.skip(0) =~= state.tab_entries@);
    while i < state.tab_entries.len() && pos.is_none()
        invariant
            i <= state.tab_entries@.len(),
            pos is None ==> active_position(state.tab_entries@) == active_position(
                state.tab_entries@.skip(i as int),
            ),
            pos is Some ==> pos == active_position(state.tab_entries@),
        decreases state.tab_entries@.len() - i,
    {
        assert(state.tab_entries@.skip(i as int).drop_first() =~= state.tab_entries@.skip(i + 1));
        if state.tab_entries[i].active {
            pos = Some(state.tab_entries[i].position);
        }
        i = i + 1;
    }
    let p = match pos {
        Some(p) => p,
        None => return ,
    };
    let mut j: usize = 0;
    assert(regions@.skip(0) =~= regions@);
    let mut line: Option<usize> = None;
    while j < regions.len() && line.is_none()
        invariant
            j <= regions@.len(),
            line is None ==> tab_region_line(regions@, p) == tab_region_line(regions@.skip(j as int), p),
            line is Some ==> line == tab_region_line(regions@, p),
        decreases regions@.len() - j,
    {
        assert(regions@.skip(j as int).drop_first() =~= regions@.skip(j + 1));
        let hit = match regions[j].target {
            ClickTarget::Tab(q) => q == p,
            _ => false,
        };
        if hit {
            line = Some(regions[j].line);
        }
        j = j + 1;
    }
    let line = match line {
        Some(l) => l,
        None => return ,
    };
    if line < state.viewport_offset {
        state.viewport_offset = line;
    } else if scrollable_rows > 0 && line >= state.viewport_offset + scrollable_rows {
        state.viewport_offset = line.saturating_sub(scrollable_rows - 1);
    }
}

/// A click target as plain values.
pub enum TargetView {
    Tab(usize),
    Pane(u32),
    Group(Seq<char>),
    Empty,
}

/// The plain value of a click target.
pub open spec fn target_view(t: ClickTarget) -> TargetView {
    match t {
        ClickTarget::Tab(p) => TargetView::Tab(p),
        ClickTarget::Pane(id) => TargetView::Pane(id),
        ClickTarget::Group(name) => TargetView::Group(name@),
        ClickTarget::Empty => TargetView::Empty,
    }
}

/// A row of the sidebar before it is drawn: the colour escapes, the text
/// and where a click on it leads.
pub struct RowSpec {
    pub bg: Seq<char>,
    pub fg: Seq<char>,
    pub text: Seq<char>,
    pub target: TargetView,
}

/// The drawn line of a row, cut or padded to `cols`.
pub open spec fn row_line(r: RowSpec, cursor: bool, cols: nat) -> Seq<char> {
    sidebar_line_text(r.bg, r.fg, crate::text::pad_visible(r.text, cols), cursor)
}

/// `lines` and `regions` are the rows `rows`, drawn, with reverse video on
/// the line at `cursor`; region `i` is on line `i`.
pub open spec fn rows_drawn(
    lines: Seq<String>,
    regions: Seq<ClickRegion>,
    rows: Seq<RowSpec>,
    cursor: Option<usize>,
    cols: nat,
) -> bool {
    &&& lines.len() == rows.len()
    &&& regions.len() == rows.len()
    &&& forall|i: int|
        0 <= i < rows.len() ==> (#[trigger] lines[i])@ == row_line(rows[i], cursor == Some(i as usize), cols)
    &&& forall|i: int|
        0 <= i < rows.len() ==> (#[trigger] regions[i]).line == i && target_view(regions[i].target) == rows[i].target
}

/// The colours a group is drawn with: its theme with the gaps filled, and
/// the text colour that reads on its background.
pub struct GroupColors {
    pub theme: ThemeConfig,
    pub text_on_bg: String,
}

/// The colours of all groups, in the order in which they are shown, and
/// the text colour that reads on each tab's own colour.
pub struct SidebarPalette {
    pub groups: Vec<GroupColors>,
    pub text_on_custom: AssocMap<TabKey, String>,
}

/// The groups of the sidebar, in order.
pub open spec fn sidebar_plan(s: PluginState) -> Seq<GroupPlan> {
    group_plan(
        s.tab_entries@,
        s.config.groups@,
        s.group_assignments@,
        s.collapsed_groups@,
        s.config.sidebar.show_empty_groups,
    )
}

/// None of the colours of `gc` would make reading it as hex panic.
pub open spec fn group_colors_ok(gc: GroupColors) -> bool {
    &&& !hex_cuts_char(gc.theme.bg@)
    &&& !hex_cuts_char(gc.theme.fg@)
    &&& (gc.theme.active_bg matches Some(c) ==> !hex_cuts_char(c@))
    &&& (gc.theme.active_fg matches Some(c) ==> !hex_cuts_char(c@))
    &&& !hex_cuts_char(gc.text_on_bg@)
}

/// `pt` is the group theme with the background `bg`, text colour `fg`,
/// active colours `active_bg` and `active_fg` and icon `icon`, filled in as
/// the group at place `index` is drawn: an empty background becomes the
/// palette colour of its place; a text colour or active colour that is set
/// is kept; the active colours are always there; the icon is kept.
pub open spec fn theme_filled(
    pt: ThemeConfig,
    bg: Seq<char>,
    fg: Seq<char>,
    active_bg: Option<String>,
    active_fg: Option<String>,
    icon: Option<String>,
    index: int,
) -> bool {
    &&& pt.bg@ == (if bg.len() == 0 {
        crate::colors::palette_color((index % 12) as nat)
    } else {
        bg
    })
    &&& (fg.len() != 0 ==> pt.fg@ == fg)
    &&& pt.active_bg is Some
    &&& (active_bg matches Some(a) ==> pt.active_bg == Some(a))
    &&& pt.active_fg is Some
    &&& (active_fg matches Some(a) ==> pt.active_fg == Some(a))
    &&& pt.icon == icon
}

/// `pt` is the theme of the group `p` at place `index`, filled in (see
/// `theme_filled`): the theme of its configured group, or the default theme.
pub open spec fn group_theme_ok(s: PluginState, pt: ThemeConfig, p: GroupPlan, index: int) -> bool {
    match p.theme {
        Some(j) => {
            let t = s.config.groups@[j].theme;
            theme_filled(pt, t.bg@, t.fg@, t.active_bg, t.active_fg, t.icon, index)
        },
        None => theme_filled(pt, "#3c3836"@, "#ebdbb2"@, None, None, None, index),
    }
}

/// The palette has one entry per group, each the group's own theme filled
/// in, a text colour for every tab with its own colour, and no colour that
/// would make reading it panic.
pub open spec fn palette_ok(s: PluginState, pal: SidebarPalette) -> bool {
    &&& pal.groups@.len() == sidebar_plan(s).len()
    &&& forall|i: int| 0 <= i < pal.groups@.len() ==> group_colors_ok(#[trigger] pal.groups@[i])
    &&& forall|i: int|
        0 <= i < pal.groups@.len() ==> group_theme_ok(
            s,
            #[trigger] pal.groups@[i].theme,
            sidebar_plan(s)[i],
            i,
        )
    &&& forall|k: (Seq<char>, usize)|
        #[trigger] s.custom_colors@.contains_key(k) ==> pal.text_on_custom@.contains_key(k) && !hex_cuts_char(
            s.custom_colors@[k]@,
        ) && !hex_cuts_char(pal.text_on_custom@[k]@)
}

/// The header text of a group: disclosure sign, icon, name.
pub open spec fn header_line_text(name: Seq<char>, collapsed: bool, icon: Option<String>) -> Seq<char> {
    seq![
        if collapsed {
            '⊞'
        } else {
            '⊟'
        },
        ' ',
    ] + (match icon {
        Some(i) => i@ + seq![' '],
        None => Seq::empty(),
    }) + name
}

/// The marker of a tab followed by a space, if it has one.
pub open spec fn marker_part(markers: Map<(Seq<char>, usize), String>, key: (Seq<char>, usize)) -> Seq<char> {
    if markers.contains_key(key) {
        markers[key]@ + seq![' ']
    } else {
        Seq::empty()
    }
}

/// The text of a tab line: the arrow of the active tab, the marker, the
/// name and the indicators.
pub open spec fn tab_line_text(
    t: (usize, Seq<char>, bool, Seq<PaneEntry>),
    marker: Seq<char>,
    ind: Seq<char>,
) -> Seq<char> {
    seq![' ', ' ', if t.2 {
        '▶'
    } else {
        ' '
    }, ' '] + marker + t.1 + (if ind.len() == 0 {
        Seq::empty()
    } else {
        seq![' '] + ind
    })
}

/// The text of a pane line: a filled dot for the focused pane, and its
/// title (`pane` when it has none).
pub open spec fn pane_line_text(p: PaneEntry) -> Seq<char> {
    seq![' ', ' ', ' ', ' ', ' ', ' ', if p.is_focused {
        '●'
    } else {
        '·'
    }, ' '] + (if p.title@.len() == 0 {
        seq!['p', 'a', 'n', 'e']
    } else {
        p.title@
    })
}

/// The background colour of a tab: its own colour, else (when active) the
/// group's active background, else the group's background.
pub open spec fn tab_bg_hex(
    t: (usize, Seq<char>, bool, Seq<PaneEntry>),
    theme: ThemeConfig,
    custom: Map<(Seq<char>, usize), String>,
) -> Seq<char> {
    if custom.contains_key((t.1, t.0)) {
        custom[(t.1, t.0)]@
    } else if t.2 {
        match theme.active_bg {
            Some(a) => a@,
            None => theme.bg@,
        }
    } else {
        theme.bg@
    }
}

/// The text colour of a tab: the group's active text colour when active,
/// else the colour that reads on its background.
pub open spec fn tab_fg_hex(
    t: (usize, Seq<char>, bool, Seq<PaneEntry>),
    gc: GroupColors,
    custom: Map<(Seq<char>, usize), String>,
    text_custom: Map<(Seq<char>, usize), String>,
) -> Seq<char> {
    if t.2 {
        match gc.theme.active_fg {
            Some(f) => f@,
            None => gc.theme.fg@,
        }
    } else if custom.contains_key((t.1, t.0)) {
        text_custom[(t.1, t.0)]@
    } else {
        gc.text_on_bg@
    }
}

/// The rows of the panes of a tab that are shown: terminal panes, when
/// panes are shown at all.
pub open spec fn pane_rows(panes: Seq<PaneEntry>, show: bool, bg: Seq<char>, fg: Seq<char>) -> Seq<RowSpec>
    decreases panes.len(),
{
    if panes.len() == 0 {
        Seq::empty()
    } else {
        let rest = pane_rows(panes.drop_last(), show, bg, fg);
        let p = panes.last();
        if !p.is_plugin && show {
            rest.push(RowSpec { bg, fg, text: pane_line_text(p), target: TargetView::Pane(p.id) })
        } else {
            rest
        }
    }
}

/// The rows of a tab: its own line, then its panes.
pub open spec fn tab_rows(
    s: PluginState,
    pal: SidebarPalette,
    gc: GroupColors,
    t: (usize, Seq<char>, bool, Seq<PaneEntry>),
) -> Seq<RowSpec> {
    let key = (t.1, t.0);
    let bg = ansi_bg_text(tab_bg_hex(t, gc.theme, s.custom_colors@));
    let fg = ansi_fg_text(tab_fg_hex(t, gc, s.custom_colors@, pal.text_on_custom@));
    let ind = indicators_text(fold_indicators(t.3, s.indicators@));
    seq![
        RowSpec {
            bg,
            fg,
            text: tab_line_text(t, marker_part(s.markers@, key), ind),
            target: TargetView::Tab(t.0),
        },
    ] + pane_rows(t.3, s.config.sidebar.show_panes, bg, fg)
}

/// The rows of a list of tabs, one after the other.
pub open spec fn tabs_rows(
    s: PluginState,
    pal: SidebarPalette,
    gc: GroupColors,
    ts: Seq<(usize, Seq<char>, bool, Seq<PaneEntry>)>,
) -> Seq<RowSpec>
    decreases ts.len(),
{
    if ts.len() == 0 {
        Seq::empty()
    } else {
        tabs_rows(s, pal, gc, ts.drop_last()) + tab_rows(s, pal, gc, ts.last())
    }
}

/// The rows of a group: its header, then (unless collapsed) its tabs.
pub open spec fn group_rows(s: PluginState, pal: SidebarPalette, p: GroupPlan, gc: GroupColors) -> Seq<RowSpec> {
    seq![
        RowSpec {
            bg: ansi_bg_text(gc.theme.bg@),
            fg: ansi_fg_text(gc.theme.fg@),
            text: header_line_text(p.name, p.collapsed, gc.theme.icon),
            target: TargetView::Group(p.name),
        },
    ] + (if p.collapsed {
        Seq::empty()
    } else {
        tabs_rows(s, pal, gc, p.tabs)
    })
}

/// The rows of the first `n` groups.
pub open spec fn rows_upto(s: PluginState, pal: SidebarPalette, n: int) -> Seq<RowSpec>
    decreases n,
{
    if n <= 0 {
        Seq::empty()
    } else {
        rows_upto(s, pal, n - 1) + group_rows(s, pal, sidebar_plan(s)[n - 1], pal.groups@[n - 1])
    }
}

/// All rows of the sidebar.
pub open spec fn sidebar_rows(s: PluginState, pal: SidebarPalette) -> Seq<RowSpec> {
    rows_upto(s, pal, sidebar_plan(s).len() as int)
}

fn push_row(
    lines: &mut Vec<String>,
    regions: &mut Vec<ClickRegion>,
    bg: &str,
    fg: &str,
    text: &str,
    target: ClickTarget,
    cursor: Option<usize>,
    cols: usize,
    Ghost(rows): Ghost<Seq<RowSpec>>,
)
    requires
        rows_drawn(old(lines)@, old(regions)@, rows, cursor, cols as nat),
    ensures
        rows_drawn(
            final(lines)@,
            final(regions)@,
            rows.push(RowSpec { bg: bg@, fg: fg@, text: text@, target: target_view(target) }),
            cursor,
            cols as nat,
        ),
{
    let idx = lines.len();
    let padded = pad_visible(text, cols);
    let at_cursor = match cursor {
        Some(c) => c == idx,
        None => false,
    };
    let line = format_sidebar_line(bg, fg, padded.as_str(), at_cursor);
    let ghost r = RowSpec { bg: bg@, fg: fg@, text: text@, target: target_view(target) };
    let ghost l0 = lines@;
    let ghost g0 = regions@;
    lines.push(line);
    regions.push(ClickRegion { line: idx, target });
    assert forall|i: int| 0 <= i < rows.len() + 1 implies (#[trigger] lines@[i])@ == row_line(
        rows.push(r)[i],
        cursor == Some(i as usize),
        cols as nat,
    ) by {
        if i < rows.len() {
            assert(lines@[i] == l0[i]);
        }
    }
    assert forall|i: int| 0 <= i < rows.len() + 1 implies (#[trigger] regions@[i]).line == i && target_view(
        regions@[i].target,
    ) == rows.push(r)[i].target by {
        if i < rows.len() {
            assert(regions@[i] == g0[i]);
        }
    }
}

fn push_pane_rows(
    lines: &mut Vec<String>,
    regions: &mut Vec<ClickRegion>,
    panes: &Vec<PaneEntry>,
    show: bool,
    bg: &str,
    fg: &str,
    cursor: Option<usize>,
    cols: usize,
    Ghost(rows): Ghost<Seq<RowSpec>>,
)
    requires
        rows_drawn(old(lines)@, old(regions)@, rows, cursor, cols as nat),
    ensures
        rows_drawn(final(lines)@, final(regions)@, rows + pane_rows(panes@, show, bg@, fg@), cursor, cols as nat),
{
    let mut k: usize = 0;
    assert(rows + pane_rows(panes@.take(0), show, bg@, fg@) =~= rows);
    while k < panes.len()
        invariant
            k <= panes@.len(),
            rows_drawn(lines@, regions@, rows + pane_rows(panes@.take(k as int), show, bg@, fg@), cursor, cols as nat),
        decreases panes@.len() - k,
    {
        let ghost before = rows + pane_rows(panes@.take(k as int), show, bg@, fg@);
        assert(panes@.take(k + 1).drop_last() =~= panes@.take(k as int));
        assert(panes@.take(k + 1).last() == panes@[k as int]);
        let p = &panes[k];
        if !p.is_plugin && show {
            let mut text = String::new();
            let mut q: usize = 0;
            while q < 6
                invariant
                    q <= 6,
                    text@ == Seq::new(q as nat, |i: int| ' '),
                decreases 6 - q,
            {
                push_char(&mut text, ' ');
                assert(text@ =~= Seq::new((q + 1) as nat, |i: int| ' '));
                q = q + 1;
            }
            push_char(&mut text, if p.is_focused { '●' } else { '·' });
            push_char(&mut text, ' ');
            if p.title.as_str().is_empty() {
                push_char(&mut text, 'p');
                push_char(&mut text, 'a');
                push_char(&mut text, 'n');
                push_char(&mut text, 'e');
            } else {
                append_str(&mut text, p.title.as_str());
            }
            assert(text@ =~= pane_line_text(*p));
            push_row(lines, regions, bg, fg, text.as_str(), ClickTarget::Pane(p.id), cursor, cols, Ghost(before));
            assert(before.push(RowSpec { bg: bg@, fg: fg@, text: text@, target: TargetView::Pane(p.id) })
                =~= rows + pane_rows(panes@.take(k + 1), show, bg@, fg@));
        } else {
            assert(before =~= rows + pane_rows(panes@.take(k + 1), show, bg@, fg@));
        }
        k = k + 1;
    }
    assert(panes@.take(panes@.len() as int) =~= panes@);
}

fn push_tab_rows(
    lines: &mut Vec<String>,
    regions: &mut Vec<ClickRegion>,
    state: &PluginState,
    pal: &SidebarPalette,
    gc: &GroupColors,
    tab: &TabEntry,
    cols: usize,
    Ghost(rows): Ghost<Seq<RowSpec>>,
)
    requires
        rows_drawn(old(lines)@, old(regions)@, rows, state.cursor_position, cols as nat),
        group_colors_ok(*gc),
        forall|k: (Seq<char>, usize)|
            #[trigger] state.custom_colors@.contains_key(k) ==> pal.text_on_custom@.contains_key(k)
                && !hex_cuts_char(state.custom_colors@[k]@) && !hex_cuts_char(pal.text_on_custom@[k]@),
    ensures
        rows_drawn(
            final(lines)@,
            final(regions)@,
            rows + tab_rows(*state, *pal, *gc, crate::grouping::tab_view(*tab)),
            state.cursor_position,
            cols as nat,
        ),
{
    let ghost t = crate::grouping::tab_view(*tab);
    let key = TabKey::new(tab.name.as_str(), tab.position);
    let mut text = String::new();
    push_char(&mut text, ' ');
    push_char(&mut text, ' ');
    push_char(&mut text, if tab.active { '▶' } else { ' ' });
    push_char(&mut text, ' ');
    match state.markers.get(&key) {
        Some(m) => {
            append_str(&mut text, m.as_str());
            push_char(&mut text, ' ');
        },
        None => {},
    }
    append_str(&mut text, tab.name.as_str());
    let ind = aggregate_tab_indicators(state, tab);
    if !ind.as_str().is_empty() {
        push_char(&mut text, ' ');
        append_str(&mut text, ind.as_str());
    }
    assert(text@ =~= tab_line_text(t, marker_part(state.markers@, (t.1, t.0)), ind@));
    let custom = state.custom_colors.get(&key);
    let bg_hex: &str = match custom {
        Some(c) => c.as_str(),
        None => if tab.active {
            match &gc.theme.active_bg {
                Some(a) => a.as_str(),
                None => gc.theme.bg.as_str(),
            }
        } else {
            gc.theme.bg.as_str()
        },
    };
    let fg_hex: &str = if tab.active {
        match &gc.theme.active_fg {
            Some(f) => f.as_str(),
            None => gc.theme.fg.as_str(),
        }
    } else {
        match custom {
            Some(_) => match pal.text_on_custom.get(&key) {
                Some(x) => x.as_str(),
                None => gc.text_on_bg.as_str(),
            },
            None => gc.text_on_bg.as_str(),
        }
    };
    assert(bg_hex@ == tab_bg_hex(t, gc.theme, state.custom_colors@));
    assert(fg_hex@ == tab_fg_hex(t, *gc, state.custom_colors@, pal.text_on_custom@));
    let bg = ansi_bg(bg_hex);
    let fg = ansi_fg(fg_hex);
    push_row(lines, regions, bg.as_str(), fg.as_str(), text.as_str(), ClickTarget::Tab(tab.position), state.cursor_position, cols, Ghost(rows));
    let ghost r = RowSpec { bg: bg@, fg: fg@, text: text@, target: TargetView::Tab(tab.position) };
    push_pane_rows(lines, regions, &tab.panes, state.config.sidebar.show_panes, bg.as_str(), fg.as_str(), state.cursor_position, cols, Ghost(rows.push(r)));
    assert(rows.push(r) + pane_rows(tab.panes@, state.config.sidebar.show_panes, bg@, fg@)
        =~= rows + tab_rows(*state, *pal, *gc, t));
}

fn push_group_rows(
    lines: &mut Vec<String>,
    regions: &mut Vec<ClickRegion>,
    state: &PluginState,
    pal: &SidebarPalette,
    group: &GroupedTabs,
    gc: &GroupColors,
    cols: usize,
    Ghost(rows): Ghost<Seq<RowSpec>>,
    Ghost(p): Ghost<GroupPlan>,
)
    requires
        rows_drawn(old(lines)@, old(regions)@, rows, state.cursor_position, cols as nat),
        grouped_matches(*group, p, state.config.groups@),
        group_colors_ok(*gc),
        forall|k: (Seq<char>, usize)|
            #[trigger] state.custom_colors@.contains_key(k) ==> pal.text_on_custom@.contains_key(k)
                && !hex_cuts_char(state.custom_colors@[k]@) && !hex_cuts_char(pal.text_on_custom@[k]@),
    ensures
        rows_drawn(
            final(lines)@,
            final(regions)@,
            rows + group_rows(*state, *pal, p, *gc),
            state.cursor_position,
            cols as nat,
        ),
{
    let mut text = String::new();
    push_char(&mut text, if group.collapsed { '⊞' } else { '⊟' });
    push_char(&mut text, ' ');
    match &gc.theme.icon {
        Some(i) => {
            append_str(&mut text, i.as_str());
            push_char(&mut text, ' ');
        },
        None => {},
    }
    append_str(&mut text, group.group_name.as_str());
    assert(text@ =~= header_line_text(p.name, p.collapsed, gc.theme.icon));
    let bg = ansi_bg(gc.theme.bg.as_str());
    let fg = ansi_fg(gc.theme.fg.as_str());
    push_row(
        lines,
        regions,
        bg.as_str(),
        fg.as_str(),
        text.as_str(),
        ClickTarget::Group(group.group_name.clone()),
        state.cursor_position,
        cols,
        Ghost(rows),
    );
    let ghost head = rows.push(
        RowSpec { bg: bg@, fg: fg@, text: text@, target: TargetView::Group(p.name) },
    );
    if group.collapsed {
        assert(head =~= rows + group_rows(*state, *pal, p, *gc));
        return ;
    }
    let mut j: usize = 0;
    assert(crate::grouping::tab_views(group.tabs@) == p.tabs);
    assert(head + tabs_rows(*state, *pal, *gc, p.tabs.take(0)) =~= head);
    while j < group.tabs.len()
        invariant
            j <= group.tabs@.len(),
            crate::grouping::tab_views(group.tabs@) == p.tabs,
            group_colors_ok(*gc),
            forall|k: (Seq<char>, usize)|
                #[trigger] state.custom_colors@.contains_key(k) ==> pal.text_on_custom@.contains_key(k)
                    && !hex_cuts_char(state.custom_colors@[k]@) && !hex_cuts_char(pal.text_on_custom@[k]@),
            rows_drawn(
                lines@,
                regions@,
                head + tabs_rows(*state, *pal, *gc, p.tabs.take(j as int)),
                state.cursor_position,
                cols as nat,
            ),
        decreases group.tabs@.len() - j,
    {
        let ghost before = head + tabs_rows(*state, *pal, *gc, p.tabs.take(j as int));
        assert(p.tabs.take(j + 1).drop_last() =~= p.tabs.take(j as int));
        assert(p.tabs.take(j + 1).last() == crate::grouping::tab_view(group.tabs@[j as int]));
        push_tab_rows(lines, regions, state, pal, gc, &group.tabs[j], cols, Ghost(before));
        assert(before + tab_rows(*state, *pal, *gc, crate::grouping::tab_view(group.tabs@[j as int]))
            =~= head + tabs_rows(*state, *pal, *gc, p.tabs.take(j + 1)));
        j = j + 1;
    }
    assert(p.tabs.take(group.tabs@.len() as int) =~= p.tabs);
    assert(head + tabs_rows(*state, *pal, *gc, p.tabs) =~= rows + group_rows(*state, *pal, p, *gc));
}

/// The lines of the sidebar and where clicks on them lead: for each group
/// a header, then (unless it is collapsed) a line per tab followed by a line
/// per shown pane. The groups are those of `assign_groups`; their colours
/// come from `palette`, one entry per group in the same order.
pub fn build_sidebar_lines(state: &PluginState, cols: usize, palette: &SidebarPalette) -> (r: (
    Vec<String>,
    Vec<ClickRegion>,
))
    requires
        palette_ok(*state, *palette),
    ensures
        rows_drawn(r.0@, r.1@, sidebar_rows(*state, *palette), state.cursor_position, cols as nat),
{
    let groups = assign_groups(
        state.tab_entries.as_slice(),
        state.config.groups.as_slice(),
        &state.group_assignments,
        &state.collapsed_groups,
        state.config.sidebar.show_empty_groups,
        state.config.sidebar.sort_by.as_str(),
    );
    let ghost plan = sidebar_plan(*state);
    let mut lines: Vec<String> = Vec::new();
    let mut regions: Vec<ClickRegion> = Vec::new();
    let mut i: usize = 0;
    while i < groups.len()
        invariant
            i <= groups@.len(),
            all_grouped_match(groups@, plan, state.config.groups@),
            plan == sidebar_plan(*state),
            palette_ok(*state, *palette),
            rows_drawn(lines@, regions@, rows_upto(*state, *palette, i as int), state.cursor_position, cols as nat),
        decreases groups@.len() - i,
    {
        assert(grouped_matches(groups@[i as int], plan[i as int], state.config.groups@));
        assert(group_colors_ok(palette.groups@[i as int]));
        push_group_rows(
            &mut lines,
            &mut regions,
            state,
            palette,
            &groups[i],
            &palette.groups[i],
            cols,
            Ghost(rows_upto(*state, *palette, i as int)),
            Ghost(plan[i as int]),
        );
        i = i + 1;
    }
    (lines, regions)
}

/// The number of items the overlay draws: those of the cached menu, else
/// those of the menu of its target.
pub open spec fn overlay_len(ms: MenuState, names: Seq<String>) -> nat {
    match ms.items_cache {
        Some(c) => c@.len(),
        None => menu_len(ms.target, names.len()),
    }
}

/// The width of the menu: 26 columns, or fewer on a narrow sidebar.
pub open spec fn menu_width(cols: nat) -> nat {
    if cols < 26 {
        cols
    } else {
        26
    }
}

/// The first line of a submenu, which leads back.
pub open spec fn back_text() -> Seq<char> {
    seq!['←', ' ', 'B', 'a', 'c', 'k', ' ', '(', 'E', 's', 'c', ')']
}

/// The text of a menu item: a rule for a separator, the label after an
/// arrow when selected, else after two spaces.
pub open spec fn menu_item_text(item: MenuItem, selected: bool, width: nat) -> Seq<char> {
    if item.is_separator {
        crate::text::repeat('─', if width >= 2 {
            (width - 2) as nat
        } else {
            0
        })
    } else if selected {
        seq!['▶', ' '] + item.label@
    } else {
        seq![' ', ' '] + item.label@
    }
}

/// A line of the menu, in the selected or the plain menu colours.
pub open spec fn menu_line(theme: SidebarTheme, selected: bool, content: Seq<char>, width: nat) -> Seq<char> {
    ansi_bg_text(
        if selected {
            theme.menu_selected_bg@
        } else {
            theme.menu_bg@
        },
    ) + ansi_fg_text(
        if selected {
            theme.menu_selected_fg@
        } else {
            theme.menu_fg@
        },
    ) + crate::text::pad_visible(content, width) + RESET@
}

/// Line `r` of the sidebar with the menu laid over it: the menu starts at
/// its position in the window (`offset` lines scrolled away), a submenu
/// with a line that leads back; only lines inside the window of `rows`
/// lines are covered.
pub open spec fn overlay_at(
    old_lines: Seq<Seq<char>>,
    items: Seq<MenuItem>,
    ms: MenuState,
    offset: nat,
    rows: nat,
    cols: nat,
    theme: SidebarTheme,
    r: int,
) -> Seq<char> {
    let start = ms.position_line as int;
    let sub = ms.parent_items is Some;
    let first = start + (if sub {
        1int
    } else {
        0int
    });
    let w = menu_width(cols);
    let i = r - offset - first;
    if sub && r == start + offset && start < rows {
        menu_line(theme, false, back_text(), w)
    } else if 0 <= i < items.len() && r - offset < rows {
        menu_line(theme, i == ms.selected_index, menu_item_text(items[i], i == ms.selected_index, w), w)
    } else {
        old_lines[r]
    }
}

/// The lines with the menu laid over them (see `overlay_at`).
pub open spec fn overlaid(
    old_lines: Seq<Seq<char>>,
    items: Seq<MenuItem>,
    ms: MenuState,
    offset: nat,
    rows: nat,
    cols: nat,
    theme: SidebarTheme,
) -> Seq<Seq<char>> {
    Seq::new(old_lines.len(), |r: int| overlay_at(old_lines, items, ms, offset, rows, cols, theme, r))
}

/// How many lines the overlay covers.
pub open spec fn overlay_count(len: int, n: int, ms: MenuState, offset: int, rows: int) -> int {
    let start = ms.position_line as int;
    let sub = ms.parent_items is Some;
    let first = start + (if sub {
        1int
    } else {
        0int
    });
    let back: int = if sub && start + offset < len && start < rows {
        1
    } else {
        0
    };
    let lim1 = len - offset - first;
    let lim2 = rows - first;
    let lim = if lim1 < lim2 {
        lim1
    } else {
        lim2
    };
    back + (if lim <= 0 {
        0
    } else if lim < n {
        lim
    } else {
        n
    })
}

/// The views of a list of lines.
pub open spec fn line_views(lines: Seq<String>) -> Seq<Seq<char>> {
    lines.map_values(|l: String| l@)
}

fn overlay_items(
    all_lines: &mut Vec<String>,
    items: &Vec<MenuItem>,
    menu_state: &MenuState,
    offset: usize,
    scrollable_rows: usize,
    cols: usize,
    theme: &SidebarTheme,
) -> (written: usize)
    requires
        menu_state.position_line + offset + 1 + items@.len() <= usize::MAX,
        theme.colors_ok(),
    ensures
        line_views(final(all_lines)@) == overlaid(
            line_views(old(all_lines)@),
            items@,
            *menu_state,
            offset as nat,
            scrollable_rows as nat,
            cols as nat,
            *theme,
        ),
        written == overlay_count(
            old(all_lines)@.len() as int,
            items@.len() as int,
            *menu_state,
            offset as int,
            scrollable_rows as int,
        ),
{
    let ghost old_lines = all_lines@;
    let in_submenu = menu_state.parent_items.is_some();
    let menu_width: usize = if cols < 26 { cols } else { 26 };
    let start_visual = menu_state.position_line;
    let mut written: usize = 0;
    if in_submenu {
        let abs_row = start_visual + offset;
        if abs_row < all_lines.len() && start_visual < scrollable_rows {
            let mut back = String::new();
            push_char(&mut back, '←');
            push_char(&mut back, ' ');
            push_char(&mut back, 'B');
            push_char(&mut back, 'a');
            push_char(&mut back, 'c');
            push_char(&mut back, 'k');
            push_char(&mut back, ' ');
            push_char(&mut back, '(');
            push_char(&mut back, 'E');
            push_char(&mut back, 's');
            push_char(&mut back, 'c');
            push_char(&mut back, ')');
            assert(back@ =~= back_text());
            let mut line = ansi_bg(theme.menu_bg.as_str());
            append_str(&mut line, ansi_fg(theme.menu_fg.as_str()).as_str());
            append_str(&mut line, pad_visible(back.as_str(), menu_width).as_str());
            append_str(&mut line, RESET);
            assert(line@ =~= menu_line(*theme, false, back_text(), menu_width as nat));
            all_lines.set(abs_row, line);
            written = 1;
        }
    }
    let item_row_offset: usize = if in_submenu { 1 } else { 0 };
    let ghost first = start_visual + item_row_offset;
    let mut i: usize = 0;
    assert forall|r: int| 0 <= r < all_lines@.len() implies (#[trigger] all_lines@[r])@ == overlay_at(
        line_views(old_lines),
        items@.take(0),
        *menu_state,
        offset as nat,
        scrollable_rows as nat,
        cols as nat,
        *theme,
        r,
    ) by {
        if !(in_submenu && r == start_visual + offset && start_visual < scrollable_rows) {
            assert(all_lines@[r] == old_lines[r]);
        }
    }
    while i < items.len()
        invariant
            i <= items@.len(),
            all_lines@.len() == old_lines.len(),
            menu_state.position_line + offset + 1 + items@.len() <= usize::MAX,
            theme.colors_ok(),
            in_submenu == menu_state.parent_items is Some,
            item_row_offset == (if in_submenu { 1usize } else { 0usize }),
            start_visual == menu_state.position_line,
            menu_width as nat == crate::render::menu_width(cols as nat),
            forall|r: int|
                0 <= r < all_lines@.len() ==> (#[trigger] all_lines@[r])@ == overlay_at(
                    line_views(old_lines),
                    items@.take(i as int),
                    *menu_state,
                    offset as nat,
                    scrollable_rows as nat,
                    cols as nat,
                    *theme,
                    r,
                ),
            written == overlay_count(
                old_lines.len() as int,
                i as int,
                *menu_state,
                offset as int,
                scrollable_rows as int,
            ),
        decreases items@.len() - i,
    {
        let visual_row = start_visual + item_row_offset + i;
        let abs_row = visual_row + offset;
        let ghost before = all_lines@;
        if abs_row < all_lines.len() && visual_row < scrollable_rows {
            let selected = i == menu_state.selected_index;
            let item = &items[i];
            let content = if item.is_separator {
                crate::text::repeat_char('─', menu_width.saturating_sub(2))
            } else {
                let mut c = String::new();
                if selected {
                    push_char(&mut c, '▶');
                } else {
                    push_char(&mut c, ' ');
                }
                push_char(&mut c, ' ');
                append_str(&mut c, item.label.as_str());
                c
            };
            assert(content@ =~= menu_item_text(items@[i as int], selected, menu_width as nat));
            let mut line = if selected {
                ansi_bg(theme.menu_selected_bg.as_str())
            } else {
                ansi_bg(theme.menu_bg.as_str())
            };
            let fg = if selected {
                ansi_fg(theme.menu_selected_fg.as_str())
            } else {
                ansi_fg(theme.menu_fg.as_str())
            };
            append_str(&mut line, fg.as_str());
            append_str(&mut line, pad_visible(content.as_str(), menu_width).as_str());
            append_str(&mut line, RESET);
            assert(line@ =~= menu_line(*theme, selected, content@, menu_width as nat));
            all_lines.set(abs_row, line);
            written = written + 1;
        }
        assert forall|r: int| 0 <= r < all_lines@.len() implies (#[trigger] all_lines@[r])@ == overlay_at(
            line_views(old_lines),
            items@.take(i + 1),
            *menu_state,
            offset as nat,
            scrollable_rows as nat,
            cols as nat,
            *theme,
            r,
        ) by {
            assert(items@.take(i + 1)[i as int] == items@[i as int]);
            if r != abs_row {
                assert(all_lines@[r] == before[r]);
                let q = r - offset - (start_visual + item_row_offset);
                if 0 <= q < i {
                    assert(items@.take(i + 1)[q] == items@.take(i as int)[q]);
                }
            }
        }
        i = i + 1;
    }
    assert(items@.take(items@.len() as int) =~= items@);
    assert(line_views(all_lines@) =~= overlaid(
        line_views(old_lines),
        items@,
        *menu_state,
        offset as nat,
        scrollable_rows as nat,
        cols as nat,
        *theme,
    ));
    written
}

/// Lays the open menu over the lines of the sidebar and returns how many
/// lines it covered: the cached items if there are any, else the menu of
/// the target; no menu for no target.
pub fn apply_menu_overlay(
    all_lines: &mut Vec<String>,
    menu_state: &MenuState,
    offset: usize,
    scrollable_rows: usize,
    cols: usize,
    group_names: &[String],
    theme: &SidebarTheme,
) -> (written: usize)
    requires
        menu_state.position_line + offset + 1 + overlay_len(*menu_state, group_names@) <= usize::MAX,
        theme.colors_ok(),
    ensures
        menu_state.items_cache is None && menu_state.target is NoTarget ==> final(all_lines)@ == old(
            all_lines,
        )@ && written == 0,
        menu_state.items_cache is Some || !(menu_state.target is NoTarget) ==> exists|items: Seq<MenuItem>|
            {
                &&& (match menu_state.items_cache {
                    Some(c) => items == c@,
                    None => is_menu_for(items, menu_state.target, group_names@),
                })
                &&& line_views(final(all_lines)@) == overlaid(
                    line_views(old(all_lines)@),
                    items,
                    *menu_state,
                    offset as nat,
                    scrollable_rows as nat,
                    cols as nat,
                    *theme,
                )
                &&& written == overlay_count(
                    old(all_lines)@.len() as int,
                    items.len() as int,
                    *menu_state,
                    offset as int,
                    scrollable_rows as int,
                )
            },
{
    match &menu_state.items_cache {
        Some(cached) => overlay_items(all_lines, cached, menu_state, offset, scrollable_rows, cols, theme),
        None => {
            let no_target = match &menu_state.target {
                MenuTarget::NoTarget => true,
                _ => false,
            };
            if no_target {
                return 0;
            }
            let items = build_menu_items(&menu_state.target, group_names);
            overlay_items(all_lines, &items, menu_state, offset, scrollable_rows, cols, theme)
        },
    }
}

/// The rename prompt: `  Rename: ` with what was typed and a block cursor.
pub open spec fn rename_prompt(buffer: Seq<char>) -> Seq<char> {
    seq![' ', ' ', 'R', 'e', 'n', 'a', 'm', 'e', ':', ' '] + buffer + seq!['\u{2588}']
}

/// The line under the divider: the rename prompt while renaming, else the
/// pinned widgets.
pub open spec fn widget_text(s: PluginState, cols: nat, clock: Seq<char>) -> Seq<char> {
    match s.rename_state {
        Some(rs) => crate::text::pad_visible(rename_prompt(rs.buffer@), cols),
        None => pinned_line(pinned_left(s, clock), pinned_right(s), cols),
    }
}

/// The line under the divider (see `widget_text`); `clock` is the
/// formatted time.
pub fn build_widget_line(state: &PluginState, cols: usize, clock: &str) -> (r: String)
    ensures
        r@ == widget_text(*state, cols as nat, clock@),
{
    match &state.rename_state {
        Some(rs) => {
            let mut prompt = String::new();
            push_char(&mut prompt, ' ');
            push_char(&mut prompt, ' ');
            push_char(&mut prompt, 'R');
            push_char(&mut prompt, 'e');
            push_char(&mut prompt, 'n');
            push_char(&mut prompt, 'a');
            push_char(&mut prompt, 'm');
            push_char(&mut prompt, 'e');
            push_char(&mut prompt, ':');
            push_char(&mut prompt, ' ');
            append_str(&mut prompt, rs.buffer.as_str());
            push_char(&mut prompt, '\u{2588}');
            assert(prompt@ =~= rename_prompt(rs.buffer@));
            pad_visible(prompt.as_str(), cols)
        },
        None => render_pinned(state, cols, clock),
    }
}

/// The rows of the window above the pinned area.
pub open spec fn scroll_rows(rows: nat) -> nat {
    if rows >= PINNED_HEIGHT {
        (rows - PINNED_HEIGHT) as nat
    } else {
        0
    }
}

/// The drawn lines of the sidebar, before a menu is laid over them.
pub open spec fn base_lines(s: PluginState, pal: SidebarPalette, cols: nat) -> Seq<Seq<char>> {
    let rows = sidebar_rows(s, pal);
    Seq::new(rows.len(), |i: int| row_line(rows[i], s.cursor_position == Some(i as usize), cols))
}

/// The names of the configured groups.
pub open spec fn group_names_of(s: PluginState) -> Seq<String> {
    s.config.groups@.map_values(|g: GroupConfig| g.name)
}

/// `items` are what the open menu shows: its cached items, else those of
/// its target.
pub open spec fn menu_items_for(menu: Option<MenuState>, names: Seq<String>, items: Seq<MenuItem>) -> bool {
    match menu {
        None => true,
        Some(m) => match m.items_cache {
            Some(c) => items == c@,
            None => m.target is NoTarget || is_menu_for(items, m.target, names),
        },
    }
}

/// The lines with the open menu, if any, laid over them.
pub open spec fn with_menu(
    base: Seq<Seq<char>>,
    menu: Option<MenuState>,
    items: Seq<MenuItem>,
    offset: nat,
    rows: nat,
    cols: nat,
    theme: SidebarTheme,
) -> Seq<Seq<char>> {
    match menu {
        None => base,
        Some(m) => if m.items_cache is None && m.target is NoTarget {
            base
        } else {
            overlaid(base, items, m, offset, rows, cols, theme)
        },
    }
}

/// A blank line of the window below the last line.
pub open spec fn filler_line(theme: SidebarTheme, cols: nat) -> Seq<char> {
    ansi_bg_text(theme.sidebar_bg@) + ansi_fg_text(theme.sidebar_fg@) + crate::text::repeat(
        ' ',
        if cols >= 1 {
            cols
        } else {
            1
        },
    )
}

/// The rule above the pinned line.
pub open spec fn divider_line(theme: SidebarTheme, cols: nat) -> Seq<char> {
    ansi_bg_text(theme.sidebar_bg@) + ansi_fg_text(theme.divider_fg@) + crate::text::repeat(
        '─',
        if cols >= 1 {
            cols
        } else {
            1
        },
    ) + RESET@
}

/// How many lines of `n` the window shows from `offset` on.
pub open spec fn shown_count(n: nat, offset: nat, rows: nat) -> nat {
    if n > offset {
        if n - offset < rows {
            (n - offset) as nat
        } else {
            rows
        }
    } else {
        0
    }
}

/// A frame: the window onto `body` from `offset`, blank lines below the
/// last line, the divider and the widget line.
pub open spec fn frame_lines(
    body: Seq<Seq<char>>,
    offset: nat,
    rows: nat,
    cols: nat,
    theme: SidebarTheme,
    widget: Seq<char>,
) -> Seq<Seq<char>> {
    let shown = shown_count(body.len(), offset, rows);
    body.subrange(offset as int, (offset + shown) as int) + Seq::new(
        (rows - shown) as nat,
        |i: int| filler_line(theme, cols),
    ) + seq![divider_line(theme, cols), widget]
}

/// `theme` is the sidebar theme of that name.
pub open spec fn theme_named(theme: SidebarTheme, name: Seq<char>) -> bool {
    if name == "rose-pine-dawn"@ {
        theme.is_rose_pine_dawn()
    } else {
        theme.is_catppuccin_mocha()
    }
}

/// The cursor kept on a line that exists.
pub open spec fn clamped_cursor(c: Option<usize>, n: nat) -> Option<usize> {
    match c {
        None => None,
        Some(p) => if n == 0 {
            None
        } else if p > n - 1 {
            Some((n - 1) as usize)
        } else {
            Some(p)
        },
    }
}

/// Region `i` is on line `i` and leads where row `i` does.
pub open spec fn regions_match(regions: Seq<ClickRegion>, rows: Seq<RowSpec>) -> bool {
    &&& regions.len() == rows.len()
    &&& forall|i: int|
        0 <= i < rows.len() ==> (#[trigger] regions[i]).line == i && target_view(regions[i].target) == rows[i].target
}

/// The scroll offset of a frame: the active tab scrolled into view, then
/// limited so that the window does not run past the last line.
pub open spec fn frame_offset(s: PluginState, regions: Seq<ClickRegion>, n: nat, rows: nat) -> nat {
    let scroll = scroll_rows(rows);
    let max_off: nat = if n >= scroll {
        (n - scroll) as nat
    } else {
        0
    };
    let vo = scrolled_to_active(s.viewport_offset, s.tab_entries@, regions, scroll as usize) as nat;
    if vo > max_off {
        max_off
    } else {
        vo
    }
}

proof fn lemma_line_views_push(s: Seq<String>, l: String)
    ensures
        line_views(s.push(l)) == line_views(s).push(l@),
{
    assert(line_views(s.push(l)) =~= line_views(s).push(l@));
}

/// The frame of a collapsed sidebar: a column of `›`.
fn collapsed_frame(rows: usize) -> (out: Vec<String>)
    ensures
        line_views(out@) == Seq::new(rows as nat, |i: int| seq!['›']),
{
    let mut out: Vec<String> = Vec::new();
    let mut k: usize = 0;
    while k < rows
        invariant
            k <= rows,
            line_views(out@) == Seq::new(k as nat, |i: int| seq!['›']),
        decreases rows - k,
    {
        let mut l = String::new();
        push_char(&mut l, '›');
        proof {
            lemma_line_views_push(out@, l);
        }
        out.push(l);
        assert(line_views(out@) =~= Seq::new((k + 1) as nat, |i: int| seq!['›']));
        k = k + 1;
    }
    out
}

/// The window onto `body` from `offset`, blank lines below the last line
/// and the divider: a frame without its widget line.
fn window_lines(all_lines: &Vec<String>, offset: usize, scrollable_rows: usize, cols: usize, theme: &SidebarTheme) -> (out: Vec<String>)
    requires
        offset <= all_lines@.len(),
        theme.colors_ok(),
    ensures
        line_views(out@).push(Seq::empty()) == frame_lines(
            line_views(all_lines@),
            offset as nat,
            scrollable_rows as nat,
            cols as nat,
            *theme,
            Seq::empty(),
        ),
{
    let mut out: Vec<String> = Vec::new();
    let len = all_lines.len();
    let end = if len - offset < scrollable_rows { len } else { offset + scrollable_rows };
    let mut k: usize = offset;
    while k < end
        invariant
            offset <= k <= end <= all_lines@.len(),
            line_views(out@) == line_views(all_lines@).subrange(offset as int, k as int),
        decreases end - k,
    {
        let l = all_lines[k].clone();
        proof {
            lemma_line_views_push(out@, l);
        }
        out.push(l);
        assert(line_views(out@) =~= line_views(all_lines@).subrange(offset as int, k + 1));
        k = k + 1;
    }
    let shown = end - offset;
    assert(shown as nat == shown_count(len as nat, offset as nat, scrollable_rows as nat));
    let width: usize = if cols >= 1 { cols } else { 1 };
    let mut f: usize = shown;
    let ghost top = line_views(out@);
    while f < scrollable_rows
        invariant
            shown <= f <= scrollable_rows,
            theme.colors_ok(),
            width as nat == (if cols >= 1 { cols as nat } else { 1 }),
            line_views(out@) == top + Seq::new((f - shown) as nat, |i: int| filler_line(*theme, cols as nat)),
        decreases scrollable_rows - f,
    {
        let mut l = ansi_bg(theme.sidebar_bg.as_str());
        let fg = ansi_fg(theme.sidebar_fg.as_str());
        append_str(&mut l, fg.as_str());
        crate::text::push_repeat(&mut l, ' ', width);
        assert(l@ =~= filler_line(*theme, cols as nat));
        proof {
            lemma_line_views_push(out@, l);
        }
        out.push(l);
        assert(line_views(out@) =~= top + Seq::new((f + 1 - shown) as nat, |i: int| filler_line(*theme, cols as nat)));
        f = f + 1;
    }
    let mut divider = ansi_bg(theme.sidebar_bg.as_str());
    let dfg = ansi_fg(theme.divider_fg.as_str());
    append_str(&mut divider, dfg.as_str());
    crate::text::push_repeat(&mut divider, '─', width);
    append_str(&mut divider, RESET);
    assert(divider@ =~= divider_line(*theme, cols as nat));
    proof {
        lemma_line_views_push(out@, divider);
    }
    out.push(divider);
    assert(line_views(out@).push(Seq::empty()) =~= frame_lines(
        line_views(all_lines@),
        offset as nat,
        scrollable_rows as nat,
        cols as nat,
        *theme,
        Seq::empty(),
    ));
    out
}

/// Brings the state in step with a frame: the largest scroll offset, the
/// active tab scrolled into view and the offset limited, the click regions
/// of the frame and the cursor on a line that exists.
fn settle_frame(state: &mut PluginState, regions: Vec<ClickRegion>, n: usize, scrollable_rows: usize)
    requires
        old(state).viewport_offset + scrollable_rows <= usize::MAX,
        regions@.len() == n,
    ensures
        final(state).click_regions@ == regions@,
        *final(state) == (PluginState {
            max_viewport_offset: (if n >= scrollable_rows {
                (n - scrollable_rows) as nat
            } else {
                0
            }) as usize,
            viewport_offset: ({
                let max_off: nat = if n >= scrollable_rows {
                    (n - scrollable_rows) as nat
                } else {
                    0
                };
                let vo = scrolled_to_active(
                    old(state).viewport_offset,
                    old(state).tab_entries@,
                    regions@,
                    scrollable_rows,
                ) as nat;
                if vo > max_off {
                    max_off
                } else {
                    vo
                }
            }) as usize,
            click_regions: final(state).click_regions,
            cursor_position: clamped_cursor(old(state).cursor_position, n as nat),
            ..*old(state)
        }),
{
    let max_offset = n.saturating_sub(scrollable_rows);
    state.max_viewport_offset = max_offset;
    auto_scroll_to_active(state, regions.as_slice(), scrollable_rows);
    if state.viewport_offset > max_offset {
        state.viewport_offset = max_offset;
    }
    state.click_regions = regions;
    match state.cursor_position {
        Some(pos) => {
            if n == 0 {
                state.cursor_position = None;
            } else if pos > n - 1 {
                state.cursor_position = Some(n - 1);
            }
        },
        None => {},
    }
}

/// Draws a frame of `rows` lines, `cols` wide, and keeps the scroll
/// offset, the click regions and the cursor in step with what is drawn.
/// A collapsed sidebar is a column of `›`. The colours of the groups come
/// from `palette`; `clock` is the formatted time for the pinned line.
#[verifier::rlimit(80)]
pub fn render_sidebar(
    state: &mut PluginState,
    rows: usize,
    cols: usize,
    palette: &SidebarPalette,
    clock: &str,
) -> (out: Vec<String>)
    requires
        !old(state).sidebar_collapsed ==> palette_ok(*old(state), *palette),
        !old(state).sidebar_collapsed ==> old(state).viewport_offset + rows <= usize::MAX,
        !old(state).sidebar_collapsed ==> (old(state).active_menu matches Some(m) ==> m.position_line
            + sidebar_rows(*old(state), *palette).len() + 1 + overlay_len(m, group_names_of(*old(state)))
            <= usize::MAX),
    ensures
        old(state).sidebar_collapsed ==> {
            &&& line_views(out@) == Seq::new(rows as nat, |i: int| seq!['›'])
            &&& final(state).click_regions@.len() == 0
            &&& *final(state) == (PluginState { click_regions: final(state).click_regions, ..*old(state) })
        },
        !old(state).sidebar_collapsed ==> {
            let rs = sidebar_rows(*old(state), *palette);
            let n = rs.len();
            let scroll = scroll_rows(rows as nat);
            let vo = frame_offset(*old(state), final(state).click_regions@, n, rows as nat);
            &&& regions_match(final(state).click_regions@, rs)
            &&& *final(state) == (PluginState {
                max_viewport_offset: (if n >= scroll {
                    (n - scroll) as nat
                } else {
                    0
                }) as usize,
                viewport_offset: vo as usize,
                click_regions: final(state).click_regions,
                cursor_position: clamped_cursor(old(state).cursor_position, n),
                ..*old(state)
            })
            &&& exists|items: Seq<MenuItem>, theme: SidebarTheme|
                {
                    &&& menu_items_for(old(state).active_menu, group_names_of(*old(state)), items)
                    &&& theme_named(theme, old(state).config.sidebar.theme@)
                    &&& line_views(out@) == frame_lines(
                        with_menu(
                            base_lines(*old(state), *palette, cols as nat),
                            old(state).active_menu,
                            items,
                            vo,
                            scroll,
                            cols as nat,
                            theme,
                        ),
                        vo,
                        scroll,
                        cols as nat,
                        theme,
                        widget_text(*old(state), cols as nat, clock@),
                    )
                }
        },
{
    if state.sidebar_collapsed {
        let out = collapsed_frame(rows);
        state.click_regions = Vec::new();
        return out;
    }
    let ghost s0 = *state;
    let scrollable_rows = rows.saturating_sub(PINNED_HEIGHT);
    let theme = crate::colors::get_theme(state.config.sidebar.theme.as_str());
    let (mut all_lines, regions) = build_sidebar_lines(state, cols, palette);
    let ghost rs = sidebar_rows(s0, *palette);
    let ghost base = line_views(all_lines@);
    assert(base =~= base_lines(s0, *palette, cols as nat));
    let n = all_lines.len();
    settle_frame(state, regions, n, scrollable_rows);
    assert(regions_match(state.click_regions@, rs));
    let offset = state.viewport_offset;
    assert(offset as nat == frame_offset(s0, state.click_regions@, n as nat, rows as nat));
    let ghost mut items: Seq<MenuItem> = Seq::empty();
    match &state.active_menu {
        Some(menu) => {
            let names = crate::input::config_group_names(&state.config.groups);
            assert(names@ =~= group_names_of(s0));
            let _ = apply_menu_overlay(&mut all_lines, menu, offset, scrollable_rows, cols, names.as_slice(), &theme);
            proof {
                if menu.items_cache is Some || !(menu.target is NoTarget) {
                    items = choose|items: Seq<MenuItem>|
                        {
                            &&& (match menu.items_cache {
                                Some(c) => items == c@,
                                None => is_menu_for(items, menu.target, names@),
                            })
                            &&& line_views(all_lines@) == overlaid(
                                base,
                                items,
                                *menu,
                                offset as nat,
                                scrollable_rows as nat,
                                cols as nat,
                                theme,
                            )
                        };
                }
            }
        },
        None => {},
    }
    let ghost body = line_views(all_lines@);
    assert(body == with_menu(base, s0.active_menu, items, offset as nat, scrollable_rows as nat, cols as nat, theme));
    let mut out = window_lines(&all_lines, offset, scrollable_rows, cols, &theme);
    let w = build_widget_line(state, cols, clock);
    let ghost pre = line_views(out@);
    proof {
        lemma_line_views_push(out@, w);
    }
    out.push(w);
    assert(state.rename_state == s0.rename_state && state.config == s0.config && state.git_status == s0.git_status);
    assert(w@ == widget_text(s0, cols as nat, clock@));
    proof {
        let f0 = frame_lines(body, offset as nat, scrollable_rows as nat, cols as nat, theme, Seq::empty());
        let f1 = frame_lines(body, offset as nat, scrollable_rows as nat, cols as nat, theme, w@);
        assert(pre.push(Seq::empty()) == f0);
        assert(pre =~= f0.drop_last());
        assert(f1 =~= f0.drop_last().push(w@));
    }
    assert(line_views(out@) =~= frame_lines(body, offset as nat, scrollable_rows as nat, cols as nat, theme, widget_text(s0, cols as nat, clock@)));
    out
}

/// A frame has exactly as many lines as the pane is high, but never fewer
/// than the divider and the widget line.
pub proof fn lemma_frame_height(
    body: Seq<Seq<char>>,
    offset: nat,
    rows: nat,
    cols: nat,
    theme: SidebarTheme,
    widget: Seq<char>,
)
    requires
        offset <= body.len(),
    ensures
        frame_lines(body, offset, scroll_rows(rows), cols, theme, widget).len() == (if rows >= PINNED_HEIGHT {
            rows
        } else {
            PINNED_HEIGHT as nat
        }),
{
}

} // verus!
