//! The parts of the colour picker that do not compute with colours: which
//! slider is active, and measuring and padding lines that hold escapes.
use vstd::prelude::*;
use crate::text::{append_str, chars_of, push_char, repeat, push_repeat};
use crate::colors::{ansi_bg, ansi_bg_text, ansi_fg, ansi_fg_text, hex_cuts_char};

verus! {

/// The slider of the picker: hue, saturation or lightness.
#[derive(Clone, Copy, Debug, PartialEq, Eq, Structural)]
pub enum HslComponent {
    H,
    S,
    L,
}

/// The slider below `c`, going round from the last to the first.
pub open spec fn next_component(c: HslComponent) -> HslComponent {
    match c {
        HslComponent::H => HslComponent::S,
        HslComponent::S => HslComponent::L,
        HslComponent::L => HslComponent::H,
    }
}

/// The slider above `c`, going round from the first to the last.
pub open spec fn prev_component(c: HslComponent) -> HslComponent {
    match c {
        HslComponent::H => HslComponent::L,
        HslComponent::S => HslComponent::H,
        HslComponent::L => HslComponent::S,
    }
}

/// Going down and then up a slider, or up and then down, comes back to
/// the same slider; three steps down go all the way round.
pub proof fn lemma_component_cycle(c: HslComponent)
    ensures
        prev_component(next_component(c)) == c,
        next_component(prev_component(c)) == c,
        next_component(next_component(next_component(c))) == c,
{
}

impl HslComponent {
    /// The slider below, going round from the last to the first.
    pub fn next(&self) -> (r: HslComponent)
        ensures
            r == next_component(*self),
    {
        match self {
            HslComponent::H => HslComponent::S,
            HslComponent::S => HslComponent::L,
            HslComponent::L => HslComponent::H,
        }
    }

    /// The slider above, going round from the first to the last.
    pub fn prev(&self) -> (r: HslComponent)
        ensures
            r == prev_component(*self),
    {
        match self {
            HslComponent::H => HslComponent::L,
            HslComponent::S => HslComponent::H,
            HslComponent::L => HslComponent::S,
        }
    }
}

/// Whether `c` is an ASCII letter.
pub open spec fn is_ascii_letter(c: char) -> bool {
    ('a' <= c && c <= 'z') || ('A' <= c && c <= 'Z')
}

/// The first index at or after `i` of an ASCII letter in `s`.
pub open spec fn find_letter_from(s: Seq<char>, i: int) -> Option<int>
    decreases s.len() - i,
{
    if i < 0 || i >= s.len() {
        None
    } else if is_ascii_letter(s[i]) {
        Some(i)
    } else {
        find_letter_from(s, i + 1)
    }
}

/// `s` without its escape sequences: an escape character followed by `[`
/// takes everything up to and including the next ASCII letter with it (or
/// the rest of the text, if no letter follows); a lone escape character is
/// dropped.
pub open spec fn strip_ansi_text(s: Seq<char>) -> Seq<char>
    decreases s.len(),
{
    if s.len() == 0 {
        Seq::empty()
    } else if s[0] == '\x1b' {
        if s.len() >= 2 && s[1] == '[' {
            match find_letter_from(s, 2) {
                Some(j) => if 0 <= j < s.len() {
                    strip_ansi_text(s.skip(j + 1))
                } else {
                    Seq::empty()
                },
                None => Seq::empty(),
            }
        } else {
            strip_ansi_text(s.drop_first())
        }
    } else {
        seq![s[0]] + strip_ansi_text(s.drop_first())
    }
}

proof fn lemma_find_letter_from_bounds(s: Seq<char>, i: int)
    ensures
        find_letter_from(s, i) matches Some(j) ==> i <= j < s.len() && is_ascii_letter(s[j]),
        find_letter_from(s, i) matches Some(j) ==> forall|k: int| i <= k < j ==> !is_ascii_letter(#[trigger] s[k]),
        find_letter_from(s, i) is None ==> forall|k: int| i <= k < s.len() && 0 <= i ==> !is_ascii_letter(#[trigger] s[k]),
    decreases s.len() - i,
{
    if 0 <= i < s.len() && !is_ascii_letter(s[i]) {
        lemma_find_letter_from_bounds(s, i + 1);
    }
}

fn is_letter(c: char) -> (r: bool)
    ensures
        r == is_ascii_letter(c),
{
    ('a' <= c && c <= 'z') || ('A' <= c && c <= 'Z')
}

/// The text of `s` without its escape sequences (see `strip_ansi_text`).
pub fn strip_ansi(s: &str) -> (r: String)
    ensures
        r@ == strip_ansi_text(s@),
{
    let v = chars_of(s);
    let mut result = String::new();
    let mut i: usize = 0;
    assert(s@.skip(0) =~= s@);
    while i < v.len()
        invariant
            v@ == s@,
            i <= v@.len(),
            result@ + strip_ansi_text(s@.skip(i as int)) == strip_ansi_text(s@),
        decreases v@.len() - i,
    {
        let ghost t = s@.skip(i as int);
        assert(t[0] == v@[i as int]);
        assert(t.drop_first() =~= s@.skip(i + 1));
        if v[i] == '\x1b' {
            if i + 1 < v.len() && v[i + 1] == '[' {
                assert(t[1] == v@[i + 1]);
                let mut j: usize = i + 2;
                while j < v.len() && !is_letter(v[j])
                    invariant
                        v@ == s@,
                        i + 2 <= j <= v@.len(),
                        t == s@.skip(i as int),
                        find_letter_from(t, 2) == find_letter_from(t, j - i),
                    decreases v@.len() - j,
                {
                    assert(t[j - i] == v@[j as int]);
                    j = j + 1;
                }
                if j < v.len() {
                    assert(t[j - i] == v@[j as int]);
                    assert(find_letter_from(t, (j - i) as int) == Some((j - i) as int));
                    assert(t.skip(j - i + 1) =~= s@.skip(j + 1));
                    i = j + 1;
                } else {
                    assert(find_letter_from(t, (j - i) as int) is None);
                    assert(s@.skip(v@.len() as int) =~= Seq::<char>::empty());
                    assert(result@ + Seq::<char>::empty() =~= result@);
                    i = v.len();
                }
            } else {
                i = i + 1;
            }
        } else {
            let ghost before = result@;
            push_char(&mut result, v[i]);
            assert(before + strip_ansi_text(t) =~= result@ + strip_ansi_text(s@.skip(i + 1)));
            i = i + 1;
        }
    }
    assert(s@.skip(v@.len() as int) =~= Seq::<char>::empty());
    assert(result@ + Seq::<char>::empty() =~= result@);
    result
}

/// `s` followed by enough spaces that its text without escapes is at least
/// `width` characters long.
pub open spec fn pad_to_text(s: Seq<char>, width: nat) -> Seq<char> {
    let visible = strip_ansi_text(s).len();
    if visible < width {
        s + repeat(' ', (width - visible) as nat)
    } else {
        s
    }
}

/// Pads `s` with spaces to `width` visible characters; escapes take no room.
pub fn pad_to(s: &str, width: usize) -> (r: String)
    ensures
        r@ == pad_to_text(s@, width as nat),
{
    let visible = chars_of(strip_ansi(s).as_str()).len();
    let mut r = s.to_owned();
    if visible < width {
        push_repeat(&mut r, ' ', width - visible);
    }
    r
}

/// Whether `s` holds no escape character.
pub open spec fn escape_free(s: Seq<char>) -> bool {
    forall|i: int| 0 <= i < s.len() ==> #[trigger] s[i] != '\x1b'
}

proof fn lemma_strip_escape_free(s: Seq<char>)
    ensures
        escape_free(strip_ansi_text(s)),
    decreases s.len(),
{
    if s.len() == 0 {
    } else if s[0] == '\x1b' {
        if s.len() >= 2 && s[1] == '[' {
            match find_letter_from(s, 2) {
                Some(j) => {
                    if 0 <= j < s.len() {
                        lemma_strip_escape_free(s.skip(j + 1));
                    }
                },
                None => {},
            }
        } else {
            lemma_strip_escape_free(s.drop_first());
        }
    } else {
        lemma_strip_escape_free(s.drop_first());
        let r = seq![s[0]] + strip_ansi_text(s.drop_first());
        assert forall|i: int| 0 <= i < r.len() implies #[trigger] r[i] != '\x1b' by {
            if i > 0 {
                assert(r[i] == strip_ansi_text(s.drop_first())[i - 1]);
            }
        }
    }
}

proof fn lemma_strip_keeps_escape_free(s: Seq<char>)
    requires
        escape_free(s),
    ensures
        strip_ansi_text(s) == s,
    decreases s.len(),
{
    if s.len() > 0 {
        assert(s[0] != '\x1b');
        assert(escape_free(s.drop_first())) by {
            assert forall|i: int| 0 <= i < s.drop_first().len() implies #[trigger] s.drop_first()[i] != '\x1b' by {
                assert(s.drop_first()[i] == s[i + 1]);
            }
        }
        lemma_strip_keeps_escape_free(s.drop_first());
        assert(seq![s[0]] + s.drop_first() =~= s);
    } else {
        assert(s =~= Seq::<char>::empty());
    }
}

/// Text without escapes has none left to remove: stripping twice is
/// stripping once.
pub proof fn lemma_strip_ansi_idempotent(s: Seq<char>)
    ensures
        strip_ansi_text(strip_ansi_text(s)) == strip_ansi_text(s),
        escape_free(strip_ansi_text(s)),
{
    lemma_strip_escape_free(s);
    lemma_strip_keeps_escape_free(strip_ansi_text(s));
}

/// A slider as the host measured it: its figure as shown (three wide) and
/// how many cells of its bar are full.
pub struct SliderRow {
    pub figure: String,
    pub filled: usize,
}

/// The width of the picker's lines: `cols`, but at least 20.
pub open spec fn picker_cols(cols: nat) -> nat {
    if cols >= 20 {
        cols
    } else {
        20
    }
}

/// The number of cells of a slider's bar: twelve fewer than the line width.
pub open spec fn picker_bar_cells(cols: nat) -> nat {
    (picker_cols(cols) - 12) as nat
}

/// The number of cells of a slider's bar (see `picker_bar_cells`).
pub fn picker_bar_width(cols: usize) -> (w: usize)
    ensures
        w == picker_bar_cells(cols as nat),
{
    let c = if cols >= 20 {
        cols
    } else {
        20
    };
    c - 12
}

/// A slider's bar: `filled` full cells, the rest of `width` empty, in
/// reverse video when the slider is active.
pub open spec fn slider_bar(filled: nat, width: nat, active: bool) -> Seq<char> {
    let bar = repeat('█', filled) + repeat('░', (width - filled) as nat);
    if active {
        "\x1b[7m"@ + bar + "\x1b[0m"@
    } else {
        bar
    }
}

/// A slider's label, `H:`, `S:` or `L:`, in bold when the slider is active.
pub open spec fn slider_label(name: char, active: bool) -> Seq<char> {
    if active {
        "\x1b[1m"@ + seq![name, ':'] + "\x1b[0m"@
    } else {
        seq![name, ':']
    }
}

/// A slider's line: label, figure with its unit, bar.
pub open spec fn slider_line(name: char, unit: char, row: SliderRow, width: nat, active: bool) -> Seq<char> {
    slider_label(name, active) + seq![' '] + row.figure@ + seq![unit, ' '] + slider_bar(
        row.filled as nat,
        width,
        active,
    )
}

/// The picker's lines before padding: the three sliders, a preview of the
/// colour `hex` in the text colour `text_hex`, and the key help.
pub open spec fn picker_raw_lines(
    active: HslComponent,
    h: SliderRow,
    s: SliderRow,
    l: SliderRow,
    hex: Seq<char>,
    text_hex: Seq<char>,
    cols: nat,
) -> Seq<Seq<char>> {
    let w = picker_bar_cells(cols);
    seq![
        slider_line('H', '°', h, w, active == HslComponent::H),
        slider_line('S', '%', s, w, active == HslComponent::S),
        slider_line('L', '%', l, w, active == HslComponent::L),
        ansi_bg_text(hex) + ansi_fg_text(text_hex) + "  "@ + hex + "  \x1b[0m"@,
        "[↑↓] row  [←→] adjust  [↵] ok  [Esc] ✕"@,
    ]
}

/// Appends a slider's line (see `slider_line`).
fn push_slider(out: &mut String, name: char, unit: char, row: &SliderRow, width: usize, active: bool)
    requires
        row.filled <= width,
    ensures
        final(out)@ == old(out)@ + slider_line(name, unit, *row, width as nat, active),
{
    let ghost start = out@;
    if active {
        append_str(out, "\x1b[1m");
    }
    push_char(out, name);
    push_char(out, ':');
    if active {
        append_str(out, "\x1b[0m");
    }
    push_char(out, ' ');
    append_str(out, row.figure.as_str());
    push_char(out, unit);
    push_char(out, ' ');
    if active {
        append_str(out, "\x1b[7m");
    }
    push_repeat(out, '█', row.filled);
    push_repeat(out, '░', width - row.filled);
    if active {
        append_str(out, "\x1b[0m");
    }
    assert(out@ =~= start + slider_line(name, unit, *row, width as nat, active));
}

/// The picker's lines (see `picker_raw_lines`), each padded to the width
/// of the picker.
pub fn picker_lines(
    active: HslComponent,
    h: &SliderRow,
    s: &SliderRow,
    l: &SliderRow,
    hex: &str,
    text_hex: &str,
    cols: usize,
) -> (r: Vec<String>)
    requires
        h.filled <= picker_bar_cells(cols as nat),
        s.filled <= picker_bar_cells(cols as nat),
        l.filled <= picker_bar_cells(cols as nat),
        !hex_cuts_char(hex@),
        !hex_cuts_char(text_hex@),
    ensures
        r@.map_values(|t: String| t@) == picker_raw_lines(active, *h, *s, *l, hex@, text_hex@, cols as nat).map_values(
            |t: Seq<char>| pad_to_text(t, picker_cols(cols as nat)),
        ),
{
    let width = picker_bar_width(cols);
    let c = if cols >= 20 {
        cols
    } else {
        20
    };
    let ghost raw = picker_raw_lines(active, *h, *s, *l, hex@, text_hex@, cols as nat);
    let mut line_h = String::new();
    push_slider(&mut line_h, 'H', '°', h, width, active == HslComponent::H);
    let mut line_s = String::new();
    push_slider(&mut line_s, 'S', '%', s, width, active == HslComponent::S);
    let mut line_l = String::new();
    push_slider(&mut line_l, 'L', '%', l, width, active == HslComponent::L);
    let mut preview = ansi_bg(hex);
    append_str(&mut preview, ansi_fg(text_hex).as_str());
    append_str(&mut preview, "  ");
    append_str(&mut preview, hex);
    append_str(&mut preview, "  \x1b[0m");
    let footer = "[↑↓] row  [←→] adjust  [↵] ok  [Esc] ✕";
    let mut r: Vec<String> = Vec::new();
    r.push(pad_to(line_h.as_str(), c));
    r.push(pad_to(line_s.as_str(), c));
    r.push(pad_to(line_l.as_str(), c));
    r.push(pad_to(preview.as_str(), c));
    r.push(pad_to(footer, c));
    proof {
        let want = raw.map_values(|t: Seq<char>| pad_to_text(t, picker_cols(cols as nat)));
        assert(line_h@ =~= raw[0]);
        assert(line_s@ =~= raw[1]);
        assert(line_l@ =~= raw[2]);
        assert(preview@ =~= raw[3]);
        assert(r@.map_values(|t: String| t@) =~= want);
    }
    r
}

} // verus!
