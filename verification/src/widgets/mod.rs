//! The widgets of the pinned area at the bottom of the sidebar.
pub mod git;
pub mod quota;
pub mod stats;

use vstd::prelude::*;
use crate::state::PluginState;
use crate::text::{chars_of, push_chars, push_repeat, repeat, trim, trim_bounds, vec_range};
use crate::widgets::git::{git_lines, git_opt_view, render_git};
use crate::widgets::quota::{quota_line, quota_opt_view, render_quota};
use crate::pet::render::{pet_lines, render_pet, PetBars};
use crate::text::{fit_line, fit_text};

verus! {

/// The pinned line: the clock on the left, git on the right, padded to
/// `cols`; with both present at least one space between them.
pub open spec fn pinned_line(left: Seq<char>, right: Seq<char>, cols: nat) -> Seq<char> {
    if left.len() == 0 && right.len() == 0 {
        repeat(' ', if cols >= 1 { cols } else { 1 })
    } else if right.len() == 0 {
        left + repeat(' ', if cols >= left.len() { (cols - left.len()) as nat } else { 0 })
    } else if left.len() == 0 {
        repeat(' ', if cols >= right.len() { (cols - right.len()) as nat } else { 0 }) + right
    } else {
        let gap: nat = if cols >= left.len() + right.len() {
            (cols - left.len() - right.len()) as nat
        } else {
            0
        };
        left + repeat(' ', if gap >= 1 { gap } else { 1 }) + right
    }
}

/// The right part of the pinned line: the first git line, trimmed, when the
/// git widget is on.
pub open spec fn pinned_right(s: PluginState) -> Seq<char> {
    if s.config.widgets.git.enabled {
        let ls = git_lines(git_opt_view(s.git_status));
        trim(if ls.len() > 0 { ls[0] } else { Seq::empty() })
    } else {
        Seq::empty()
    }
}

/// The left part of the pinned line: the clock when the clock widget is on.
pub open spec fn pinned_left(s: PluginState, clock: Seq<char>) -> Seq<char> {
    if s.config.widgets.clock.enabled {
        clock
    } else {
        Seq::empty()
    }
}

/// The pinned line (see `pinned_line`); `clock` is the formatted time.
pub fn render_pinned(state: &PluginState, cols: usize, clock: &str) -> (r: String)
    ensures
        r@ == pinned_line(pinned_left(*state, clock@), pinned_right(*state), cols as nat),
{
    let left: Vec<char> = if state.config.widgets.clock.enabled {
        chars_of(clock)
    } else {
        Vec::new()
    };
    let right: Vec<char> = if state.config.widgets.git.enabled {
        let ls = render_git(&state.git_status);
        let ghost views = ls@.map_values(|l: String| l@);
        let first: Vec<char> = if ls.len() > 0 {
            assert(views[0] == ls@[0]@);
            chars_of(ls[0].as_str())
        } else {
            Vec::new()
        };
        let (a, b) = trim_bounds(&first, 0, first.len());
        assert(first@.subrange(0, first@.len() as int) =~= first@);
        vec_range(&first, a, b)
    } else {
        Vec::new()
    };
    assert(left@ == pinned_left(*state, clock@));
    assert(right@ == pinned_right(*state));
    let l = left.len();
    let r = right.len();
    let mut out = String::new();
    if l == 0 && r == 0 {
        push_repeat(&mut out, ' ', if cols >= 1 { cols } else { 1 });
    } else if r == 0 {
        push_chars(&mut out, &left);
        push_repeat(&mut out, ' ', if cols >= l { cols - l } else { 0 });
    } else if l == 0 {
        push_repeat(&mut out, ' ', if cols >= r { cols - r } else { 0 });
        push_chars(&mut out, &right);
    } else {
        let gap: usize = if cols >= l && cols - l >= r { cols - l - r } else { 0 };
        push_chars(&mut out, &left);
        push_repeat(&mut out, ' ', if gap >= 1 { gap } else { 1 });
        push_chars(&mut out, &right);
    }
    assert(out@ =~= pinned_line(left@, right@, cols as nat));
    out
}

/// The sprite frame the pinned area shows: the animation's current frame,
/// or the content face when there is no animation.
pub open spec fn pinned_frame(s: PluginState) -> Seq<char> {
    match s.pet_animation {
        Some(a) => a.frames@[a.frame_index as int]@,
        None => "(=^·ω·^=)"@,
    }
}

/// A widget's line below the pinned line: `line` cut or padded to `cols`,
/// when the widget is on and has something to show.
pub open spec fn widget_row(on: bool, line: Seq<char>, cols: nat) -> Seq<Seq<char>> {
    if on && line.len() > 0 {
        seq![fit_text(line, cols)]
    } else {
        Seq::empty()
    }
}

/// All lines of the pinned area: the pinned line, then the stats line
/// `stats`, the quota line and the pet's lines, of the widgets that are on.
pub open spec fn pinned_lines(
    s: PluginState,
    cols: nat,
    clock: Seq<char>,
    stats: Seq<char>,
    pet: Option<PetBars>,
) -> Seq<Seq<char>> {
    seq![pinned_line(pinned_left(s, clock), pinned_right(s), cols)] + widget_row(
        s.config.widgets.stats.enabled,
        stats,
        cols,
    ) + widget_row(s.config.widgets.quota.enabled, quota_line(quota_opt_view(s.quota)), cols)
        + if s.config.widgets.pet.enabled {
        match pet {
            Some(p) => pet_lines(p, pinned_frame(s), cols),
            None => Seq::empty(),
        }
    } else {
        Seq::empty()
    }
}

/// All lines of the pinned area (see `pinned_lines`); `clock` is the
/// formatted time, `stats_line` the stats line and `pet` what is shown of
/// the pet, if there is one.
pub fn render_pinned_lines(
    state: &PluginState,
    cols: usize,
    clock: &str,
    stats_line: &str,
    pet: &Option<PetBars>,
) -> (r: Vec<String>)
    requires
        state.config.widgets.pet.enabled ==> match state.pet_animation {
            Some(a) => a.frame_index < a.frames@.len(),
            None => true,
        },
    ensures
        r@.map_values(|l: String| l@) == pinned_lines(*state, cols as nat, clock@, stats_line@, *pet),
{
    let mut lines: Vec<String> = Vec::new();
    lines.push(render_pinned(state, cols, clock));
    let ghost mut want: Seq<Seq<char>> = seq![
        pinned_line(pinned_left(*state, clock@), pinned_right(*state), cols as nat),
    ];
    assert(lines@.map_values(|l: String| l@) =~= want);
    if state.config.widgets.stats.enabled && stats_line.unicode_len() > 0 {
        lines.push(fit_line(stats_line, cols));
    }
    proof {
        want = want + widget_row(state.config.widgets.stats.enabled, stats_line@, cols as nat);
    }
    assert(lines@.map_values(|l: String| l@) =~= want);
    if state.config.widgets.quota.enabled {
        let q = render_quota(&state.quota);
        if q.as_str().unicode_len() > 0 {
            lines.push(fit_line(q.as_str(), cols));
        }
    }
    proof {
        want = want + widget_row(
            state.config.widgets.quota.enabled,
            quota_line(quota_opt_view(state.quota)),
            cols as nat,
        );
    }
    assert(lines@.map_values(|l: String| l@) =~= want);
    if state.config.widgets.pet.enabled {
        let frame: &str = match &state.pet_animation {
            Some(a) => a.current_frame(),
            None => "(=^·ω·^=)",
        };
        assert(frame@ == pinned_frame(*state));
        match pet {
            Some(p) => {
                let mut pl = render_pet(p, frame, cols);
                let ghost old_lines = lines@;
                lines.append(&mut pl);
                assert(lines@.map_values(|l: String| l@) =~= old_lines.map_values(
                    |l: String| l@,
                ) + pet_lines(*p, frame@, cols as nat));
            },
            None => {},
        }
    }
    assert(lines@.map_values(|l: String| l@) =~= pinned_lines(
        *state,
        cols as nat,
        clock@,
        stats_line@,
        *pet,
    ));
    lines
}

} // verus!
