//! Per-pane activity indicators set through the pipe: busy, bell and input.
use vstd::prelude::*;

verus! {

/// The indicators of one pane (or of the `"default"` slot).
#[derive(Clone, Copy)]
pub struct IndicatorState {
    pub busy: bool,
    pub bell: bool,
    pub input: bool,
    pub busy_frame: usize,
}

impl Default for IndicatorState {
    fn default() -> (r: Self)
        ensures
            !r.busy && !r.bell && !r.input && r.busy_frame == 0,
    {
        IndicatorState { busy: false, bell: false, input: false, busy_frame: 0 }
    }
}

/// The spinner frames of the busy indicator, in order.
pub const BUSY_FRAMES: [char; 4] = ['◐', '◓', '◑', '◒'];

/// The spinner frame shown at animation step `frame`.
pub open spec fn busy_frame_char(frame: nat) -> char {
    let k = frame % 4;
    if k == 0 {
        '◐'
    } else if k == 1 {
        '◓'
    } else if k == 2 {
        '◑'
    } else {
        '◒'
    }
}

/// The text of a pane's indicators: the spinner frame when busy, then a
/// diamond for a bell, then a question mark for a pending input.
pub open spec fn indicators_text(s: IndicatorState) -> Seq<char> {
    (if s.busy {
        seq![busy_frame_char(s.busy_frame as nat)]
    } else {
        Seq::<char>::empty()
    }) + (if s.bell {
        seq!['◆']
    } else {
        Seq::<char>::empty()
    }) + (if s.input {
        seq!['?']
    } else {
        Seq::<char>::empty()
    })
}

fn frame_char(frame: usize) -> (c: char)
    ensures
        c == busy_frame_char(frame as nat),
{
    let k = frame % 4;
    if k == 0 {
        '◐'
    } else if k == 1 {
        '◓'
    } else if k == 2 {
        '◑'
    } else {
        '◒'
    }
}

/// Renders the indicators of one pane.
pub fn render_indicators(state: &IndicatorState) -> (s: String)
    ensures
        s@ == indicators_text(*state),
{
    let mut s = String::new();
    if state.busy {
        crate::text::push_char(&mut s, frame_char(state.busy_frame));
    }
    if state.bell {
        crate::text::push_char(&mut s, '◆');
    }
    if state.input {
        crate::text::push_char(&mut s, '?');
    }
    assert(s@ =~= indicators_text(*state));
    s
}

} // verus!
