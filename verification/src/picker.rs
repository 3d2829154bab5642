//! The emoji picker: a search over the emoji catalogue by name, and its
//! grid of results with the selected emoji in reverse video.
use vstd::prelude::*;
use crate::text::{append_str, find, find_in, chars_of, push_char, push_repeat, repeat};

verus! {

/// An emoji of the catalogue: its text and its name.
#[derive(Debug)]
pub struct EmojiEntry {
    pub glyph: String,
    pub name: String,
}

impl Clone for EmojiEntry {
    fn clone(&self) -> (r: Self)
        ensures
            r == *self,
    {
        EmojiEntry { glyph: self.glyph.clone(), name: self.name.clone() }
    }
}

/// The lower-case form of a text, by Unicode case mapping.
pub uninterp spec fn lowercase_of(s: Seq<char>) -> Seq<char>;

/// The number of terminal columns a text takes.
pub uninterp spec fn display_width(s: Seq<char>) -> nat;

/// Every emoji of the catalogue of the `emojis` crate (`emojis::iter`, in
/// its order, default skin tones only), each with its text (`Emoji::as_str`)
/// and name (`Emoji::name`). Trusted: the catalogue is not empty; what it
/// holds is left to the crate's data.
#[verifier::external_body]
fn emoji_catalog() -> (r: Vec<EmojiEntry>)
    ensures
        r@.len() > 0,
{
    emojis::iter().map(|e| EmojiEntry { glyph: e.as_str().to_string(), name: e.name().to_string() }).collect()
}

/// `str::to_lowercase`. Trusted: the result is the lower-case form of `s`,
/// named `lowercase_of`.
#[verifier::external_body]
fn lowercase(s: &str) -> (r: String)
    ensures
        r@ == lowercase_of(s@),
{
    s.to_lowercase()
}

/// `UnicodeWidthStr::width` of the `unicode-width` crate. Trusted: the
/// result is the column width of `s`, named `display_width`.
#[verifier::external_body]
fn text_width(s: &str) -> (r: usize)
    ensures
        r as nat == display_width(s@),
{
    unicode_width::UnicodeWidthStr::width(s)
}

/// Whether an emoji is found by a lower-case query: every emoji for the
/// empty query, else those whose lower-case name contains it.
pub open spec fn matches_query(e: EmojiEntry, q: Seq<char>) -> bool {
    q.len() == 0 || find(lowercase_of(e.name@), q) is Some
}

/// The emojis of `es` found by `q`, in their order.
pub open spec fn filtered(es: Seq<EmojiEntry>, q: Seq<char>) -> Seq<EmojiEntry>
    decreases es.len(),
{
    if es.len() == 0 {
        Seq::empty()
    } else {
        let rest = filtered(es.drop_last(), q);
        if matches_query(es.last(), q) {
            rest.push(es.last())
        } else {
            rest
        }
    }
}

/// The picker: what was typed, what it finds, the selected result and the
/// tab the emoji is for.
#[derive(Debug)]
pub struct EmojiPickerState {
    pub query: String,
    pub results: Vec<EmojiEntry>,
    pub selected: usize,
    pub target_tab: usize,
}

/// The emojis of `catalog` found by the lower-case query `q`, in order.
pub fn filter_entries(catalog: &Vec<EmojiEntry>, q: &str) -> (r: Vec<EmojiEntry>)
    ensures
        r@ == filtered(catalog@, q@),
{
    let qv = chars_of(q);
    let mut r: Vec<EmojiEntry> = Vec::new();
    let mut i: usize = 0;
    while i < catalog.len()
        invariant
            qv@ == q@,
            i <= catalog@.len(),
            r@ == filtered(catalog@.take(i as int), q@),
        decreases catalog@.len() - i,
    {
        let e = &catalog[i];
        assert(catalog@.take(i + 1).drop_last() =~= catalog@.take(i as int));
        assert(catalog@.take(i + 1).last() == catalog@[i as int]);
        let keep = if qv.len() == 0 {
            true
        } else {
            let name = chars_of(lowercase(e.name.as_str()).as_str());
            find_in(&name, &qv, 0).is_some()
        };
        if keep {
            r.push(e.clone());
        }
        i = i + 1;
    }
    assert(catalog@.take(catalog@.len() as int) =~= catalog@);
    r
}

fn clone_entries(v: &Vec<EmojiEntry>) -> (r: Vec<EmojiEntry>)
    ensures
        r@ == v@,
{
    let mut r: Vec<EmojiEntry> = Vec::new();
    let mut i: usize = 0;
    while i < v.len()
        invariant
            i <= v@.len(),
            r@ == v@.take(i as int),
        decreases v@.len() - i,
    {
        r.push(v[i].clone());
        assert(v@.take(i + 1) =~= v@.take(i as int).push(v@[i as int]));
        i = i + 1;
    }
    assert(v@.take(v@.len() as int) =~= v@);
    r
}

impl Clone for EmojiPickerState {
    fn clone(&self) -> (r: Self)
        ensures
            r.query == self.query,
            r.results@ == self.results@,
            r.selected == self.selected,
            r.target_tab == self.target_tab,
    {
        EmojiPickerState {
            query: self.query.clone(),
            results: clone_entries(&self.results),
            selected: self.selected,
            target_tab: self.target_tab,
        }
    }
}

impl EmojiPickerState {
    /// A picker for the tab at `target_tab`: no query, the whole catalogue,
    /// the first emoji selected.
    pub fn new(target_tab: usize) -> (p: Self)
        ensures
            p.query@.len() == 0,
            p.results@.len() > 0,
            p.selected == 0,
            p.target_tab == target_tab,
    {
        EmojiPickerState { query: String::new(), results: emoji_catalog(), selected: 0, target_tab }
    }

    /// Searches the catalogue for the query (ignoring case) and selects the
    /// first result.
    pub fn filter(&mut self)
        ensures
            final(self).query == old(self).query,
            final(self).target_tab == old(self).target_tab,
            final(self).selected == 0,
            exists|catalog: Seq<EmojiEntry>|
                catalog.len() > 0 && final(self).results@ == filtered(catalog, lowercase_of(old(self).query@)),
    {
        let q = lowercase(self.query.as_str());
        let catalog = emoji_catalog();
        self.results = filter_entries(&catalog, q.as_str());
        self.selected = 0;
    }

    /// The text of the selected emoji, if there is one.
    pub fn selected_emoji(&self) -> (r: Option<&str>)
        ensures
            self.selected < self.results@.len() ==> (r matches Some(g) && g@ == self.results@[self.selected as int].glyph@),
            self.selected >= self.results@.len() ==> r is None,
    {
        if self.selected < self.results.len() {
            Some(self.results[self.selected].glyph.as_str())
        } else {
            None
        }
    }
}

/// The width a picker grid is drawn in: at least 4 columns.
pub open spec fn picker_cols(cols: nat) -> nat {
    if cols < 4 {
        4
    } else {
        cols
    }
}

/// How many emojis a grid row holds: one per three columns, at least one.
pub open spec fn per_row(c: nat) -> nat {
    if c / 3 < 1 {
        1
    } else {
        c / 3
    }
}

/// Spaces that fill `text` to `c` columns.
pub open spec fn fill_to(width: nat, c: nat) -> Seq<char> {
    if width < c {
        repeat(' ', (c - width) as nat)
    } else {
        Seq::empty()
    }
}

/// The header text: `Search: `, the query and a block cursor.
pub open spec fn search_text(q: Seq<char>) -> Seq<char> {
    seq!['S', 'e', 'a', 'r', 'c', 'h', ':', ' '] + q + seq!['\u{2588}']
}

/// One emoji of a grid row: in reverse video when selected, then a space.
pub open spec fn slot_text(g: Seq<char>, selected: bool) -> Seq<char> {
    (if selected {
        crate::colors::REVERSE@ + g + crate::colors::RESET@
    } else {
        g
    }) + seq![' ']
}

/// The emojis `lo .. lo + n` of `es`, one after the other.
pub open spec fn row_text(es: Seq<EmojiEntry>, lo: int, n: int, selected: usize) -> Seq<char>
    decreases n,
{
    if n <= 0 {
        Seq::empty()
    } else {
        row_text(es, lo, n - 1, selected) + slot_text(es[lo + n - 1].glyph@, lo + n - 1 == selected)
    }
}

/// The columns taken by the emojis `lo .. lo + n` of `es` and their spaces.
pub open spec fn row_width(es: Seq<EmojiEntry>, lo: int, n: int) -> nat
    decreases n,
{
    if n <= 0 {
        0
    } else {
        row_width(es, lo, n - 1) + display_width(es[lo + n - 1].glyph@) + 1
    }
}

/// How many emojis the row starting at `lo` holds.
pub open spec fn row_count(len: int, lo: int, per: int) -> int {
    if len - lo < per {
        len - lo
    } else {
        per
    }
}

/// The grid rows from emoji `lo` on, each padded to `c` columns.
pub open spec fn grid_rows(es: Seq<EmojiEntry>, lo: int, per: int, selected: usize, c: nat) -> Seq<Seq<char>>
    decreases es.len() - lo,
{
    if lo >= es.len() || per <= 0 || lo < 0 {
        Seq::empty()
    } else {
        let n = row_count(es.len() as int, lo, per);
        seq![row_text(es, lo, n, selected) + fill_to(row_width(es, lo, n), c)] + grid_rows(
            es,
            lo + n,
            per,
            selected,
            c,
        )
    }
}

/// The width of every grid row from emoji `lo` on fits in a `usize`.
pub open spec fn rows_fit(es: Seq<EmojiEntry>, lo: int, per: int) -> bool
    decreases es.len() - lo,
{
    if lo >= es.len() || per <= 0 || lo < 0 {
        true
    } else {
        let n = row_count(es.len() as int, lo, per);
        row_width(es, lo, n) <= usize::MAX && rows_fit(es, lo + n, per)
    }
}

/// The lines of the picker: the search line in reverse video, then the
/// grid of results, or `  No results`.
pub open spec fn picker_lines(query: Seq<char>, es: Seq<EmojiEntry>, selected: usize, cols: nat) -> Seq<Seq<char>> {
    let c = picker_cols(cols);
    let header = crate::colors::REVERSE@ + search_text(query) + fill_to(display_width(search_text(query)), c)
        + crate::colors::RESET@;
    if es.len() == 0 {
        seq![header, "  No results"@ + fill_to(display_width("  No results"@), c)]
    } else {
        seq![header] + grid_rows(es, 0, per_row(c) as int, selected, c)
    }
}

proof fn lemma_row_width_mono(es: Seq<EmojiEntry>, lo: int, k: int, n: int)
    requires
        0 <= k <= n,
    ensures
        row_width(es, lo, k) <= row_width(es, lo, n),
    decreases n - k,
{
    if k < n {
        lemma_row_width_mono(es, lo, k, n - 1);
    }
}

fn push_reverse(s: &mut String)
    ensures
        final(s)@ == old(s)@ + crate::colors::REVERSE@,
{
    append_str(s, crate::colors::REVERSE);
}

fn push_reset(s: &mut String)
    ensures
        final(s)@ == old(s)@ + crate::colors::RESET@,
{
    append_str(s, crate::colors::RESET);
}

/// Draws the picker (see `picker_lines`) at least 4 columns wide.
pub fn render_picker(picker: &EmojiPickerState, cols: usize) -> (lines: Vec<String>)
    requires
        rows_fit(picker.results@, 0, per_row(picker_cols(cols as nat)) as int),
    ensures
        lines@.map_values(|l: String| l@) == picker_lines(
            picker.query@,
            picker.results@,
            picker.selected,
            cols as nat,
        ),
{
    let c: usize = if cols < 4 { 4 } else { cols };
    let mut lines: Vec<String> = Vec::new();
    let mut header_text = String::new();
    push_char(&mut header_text, 'S');
    push_char(&mut header_text, 'e');
    push_char(&mut header_text, 'a');
    push_char(&mut header_text, 'r');
    push_char(&mut header_text, 'c');
    push_char(&mut header_text, 'h');
    push_char(&mut header_text, ':');
    push_char(&mut header_text, ' ');
    append_str(&mut header_text, picker.query.as_str());
    push_char(&mut header_text, '\u{2588}');
    assert(header_text@ =~= search_text(picker.query@));
    let header_vis = text_width(header_text.as_str());
    let mut header = String::new();
    push_reverse(&mut header);
    append_str(&mut header, header_text.as_str());
    if header_vis < c {
        push_repeat(&mut header, ' ', c - header_vis);
    }
    push_reset(&mut header);
    let ghost es = picker.results@;
    let ghost want = picker_lines(picker.query@, es, picker.selected, cols as nat);
    assert(header@ =~= want[0]);
    lines.push(header);
    if picker.results.len() == 0 {
        let msg = "  No results";
        let w = text_width(msg);
        let mut line = msg.to_owned();
        if w < c {
            push_repeat(&mut line, ' ', c - w);
        }
        assert(line@ =~= want[1]);
        lines.push(line);
        assert(lines@.map_values(|l: String| l@) =~= want);
        return lines;
    }
    let per: usize = if c / 3 < 1 { 1 } else { c / 3 };
    let mut lo: usize = 0;
    assert(grid_rows(es, 0, per as int, picker.selected, c as nat) == want.drop_first());
    while lo < picker.results.len()
        invariant
            es == picker.results@,
            per >= 1,
            lo <= es.len(),
            rows_fit(es, lo as int, per as int),
            lines@.map_values(|l: String| l@) + grid_rows(es, lo as int, per as int, picker.selected, c as nat)
                == want,
        decreases es.len() - lo,
    {
        let n: usize = if picker.results.len() - lo < per { picker.results.len() - lo } else { per };
        assert(n as int == row_count(es.len() as int, lo as int, per as int));
        let mut row = String::new();
        let mut vis: usize = 0;
        let mut j: usize = 0;
        let total = picker.results.len();
        while j < n
            invariant
                es == picker.results@,
                total == es.len(),
                lo + n <= total,
                j <= n,
                row_width(es, lo as int, n as int) <= usize::MAX,
                row@ == row_text(es, lo as int, j as int, picker.selected),
                vis as nat == row_width(es, lo as int, j as int),
            decreases n - j,
        {
            let i = lo + j;
            let g = picker.results[i].glyph.as_str();
            let ew = text_width(g);
            if i == picker.selected {
                push_reverse(&mut row);
                append_str(&mut row, g);
                push_reset(&mut row);
            } else {
                append_str(&mut row, g);
            }
            push_char(&mut row, ' ');
            proof {
                lemma_row_width_mono(es, lo as int, j + 1, n as int);
            }
            vis = vis + ew + 1;
            assert(row@ =~= row_text(es, lo as int, j + 1, picker.selected));
            j = j + 1;
        }
        if vis < c {
            push_repeat(&mut row, ' ', c - vis);
        }
        let ghost before = lines@.map_values(|l: String| l@);
        lines.push(row);
        assert(lines@.map_values(|l: String| l@) =~= before.push(row@));
        let ghost rest = grid_rows(es, (lo + n) as int, per as int, picker.selected, c as nat);
        assert(grid_rows(es, lo as int, per as int, picker.selected, c as nat) == seq![row@] + rest);
        assert(before.push(row@) + rest =~= before + (seq![row@] + rest));
        lo = lo + n;
    }
    assert(grid_rows(es, lo as int, per as int, picker.selected, c as nat) =~= Seq::<Seq<char>>::empty());
    assert(lines@.map_values(|l: String| l@) + Seq::<Seq<char>>::empty() =~= lines@.map_values(|l: String| l@));
    lines
}

/// Whether every grid row of the picker's results fits in a `usize` when
/// drawn `cols` wide (see `rows_fit`).
fn picker_rows_fit(picker: &EmojiPickerState, cols: usize) -> (r: bool)
    ensures
        r == rows_fit(picker.results@, 0, per_row(picker_cols(cols as nat)) as int),
{
    let c: usize = if cols < 4 { 4 } else { cols };
    let per: usize = if c / 3 < 1 { 1 } else { c / 3 };
    assert(per as nat == per_row(picker_cols(cols as nat)));
    let ghost es = picker.results@;
    let ghost want = rows_fit(es, 0, per as int);
    let mut lo: usize = 0;
    while lo < picker.results.len()
        invariant
            es == picker.results@,
            per >= 1,
            per as nat == per_row(picker_cols(cols as nat)),
            lo <= es.len(),
            want == rows_fit(es, 0, per as int),
            want == rows_fit(es, lo as int, per as int),
        decreases es.len() - lo,
    {
        let n: usize = if picker.results.len() - lo < per { picker.results.len() - lo } else { per };
        assert(n as int == row_count(es.len() as int, lo as int, per as int));
        let mut vis: usize = 0;
        let mut j: usize = 0;
        while j < n
            invariant
                es == picker.results@,
                es.len() <= usize::MAX,
                per >= 1,
                per as nat == per_row(picker_cols(cols as nat)),
                lo < es.len(),
                lo + n <= es.len(),
                n as int == row_count(es.len() as int, lo as int, per as int),
                want == rows_fit(es, 0, per as int),
                want == rows_fit(es, lo as int, per as int),
                j <= n,
                vis as nat == row_width(es, lo as int, j as int),
            decreases n - j,
        {
            assert(row_width(es, lo as int, j + 1) == vis + display_width(es[lo + j].glyph@) + 1);
            let ew = text_width(picker.results[lo + j].glyph.as_str());
            match vis.checked_add(ew) {
                Some(a) => match a.checked_add(1) {
                    Some(b) => {
                        vis = b;
                    },
                    None => {
                        proof {
                            lemma_row_width_mono(es, lo as int, j + 1, n as int);
                            assert(!rows_fit(es, lo as int, per as int));
                        }
                        return false;
                    },
                },
                None => {
                    proof {
                        lemma_row_width_mono(es, lo as int, j + 1, n as int);
                        assert(!rows_fit(es, lo as int, per as int));
                    }
                    return false;
                },
            }
            j = j + 1;
        }
        assert(want == rows_fit(es, (lo + n) as int, per as int));
        lo = lo + n;
    }
    true
}

/// Draws the picker (see `render_picker`) when every grid row's width fits
/// in a `usize`, and gives `None` otherwise.
pub fn render_picker_checked(picker: &EmojiPickerState, cols: usize) -> (r: Option<Vec<String>>)
    ensures
        r is Some <==> rows_fit(picker.results@, 0, per_row(picker_cols(cols as nat)) as int),
        r matches Some(lines) ==> lines@.map_values(|l: String| l@) == picker_lines(
            picker.query@,
            picker.results@,
            picker.selected,
            cols as nat,
        ),
{
    if picker_rows_fit(picker, cols) {
        Some(render_picker(picker, cols))
    } else {
        None
    }
}

} // verus!
