//! Hex colours, the ANSI escapes that draw them, the default group palette
//! and the two sidebar themes.
use vstd::prelude::*;
use crate::text::{chars_of, decimal, push_char, push_decimal, str_eq};

verus! {

/// A colour as red, green and blue bytes.
pub struct Rgb {
    pub r: u8,
    pub g: u8,
    pub b: u8,
}

/// The value of a hexadecimal digit (either case).
pub open spec fn hex_val(c: char) -> Option<u8> {
    let u = c as u32;
    if 0x30 <= u <= 0x39 {
        Some((u - 0x30) as u8)
    } else if 0x61 <= u <= 0x66 {
        Some((u - 0x61 + 10) as u8)
    } else if 0x41 <= u <= 0x46 {
        Some((u - 0x41 + 10) as u8)
    } else {
        None
    }
}

/// What `u8::from_str_radix` with radix 16 gives for the two characters `a b`:
/// two digits, or a `+` sign and one digit.
pub open spec fn byte_of_pair(a: char, b: char) -> Option<u8> {
    match (hex_val(a), hex_val(b)) {
        (Some(x), Some(y)) => Some((16 * x + y) as u8),
        (None, Some(y)) => if a == '+' {
            Some(y)
        } else {
            None
        },
        _ => None,
    }
}

/// `s` without its leading `#` characters.
pub open spec fn strip_hashes(s: Seq<char>) -> Seq<char>
    decreases s.len(),
{
    if s.len() > 0 && s[0] == '#' {
        strip_hashes(s.drop_first())
    } else {
        s
    }
}

/// Whether `c` is ASCII.
pub open spec fn ascii_char(c: char) -> bool {
    (c as u32) < 0x80
}

/// Whether every character of `t` is ASCII.
pub open spec fn all_ascii(t: Seq<char>) -> bool {
    forall|i: int| 0 <= i < t.len() ==> ascii_char(#[trigger] t[i])
}

/// The colour that a hex text such as `#e74c3c` names: after the leading `#`s,
/// exactly six ASCII characters, read as three pairs.
pub open spec fn parse_hex_color(s: Seq<char>) -> Option<Rgb> {
    let t = strip_hashes(s);
    if t.len() == 6 && all_ascii(t) {
        match (byte_of_pair(t[0], t[1]), byte_of_pair(t[2], t[3]), byte_of_pair(t[4], t[5])) {
            (Some(r), Some(g), Some(b)) => Some(Rgb { r, g, b }),
            _ => None,
        }
    } else {
        None
    }
}

/// The number of bytes that UTF-8 takes for `c`.
pub open spec fn utf8_width(c: char) -> nat {
    let u = c as u32;
    if u < 0x80 {
        1
    } else if u < 0x800 {
        2
    } else if u < 0x10000 {
        3
    } else {
        4
    }
}

/// The number of bytes that UTF-8 takes for `t`.
pub open spec fn utf8_len(t: Seq<char>) -> nat
    decreases t.len(),
{
    if t.len() == 0 {
        0
    } else {
        utf8_len(t.drop_last()) + utf8_width(t.last())
    }
}

/// Whether byte offset `n` of `t` falls between two characters.
pub open spec fn on_boundary(t: Seq<char>, n: nat) -> bool {
    exists|k: int| 0 <= k <= t.len() && #[trigger] utf8_len(t.take(k)) == n
}

/// Whether reading `s` as a hex colour would cut a character in two: six
/// bytes after the leading `#`s, with byte 2 or byte 4 inside a character.
pub open spec fn hex_cuts_char(s: Seq<char>) -> bool {
    let t = strip_hashes(s);
    utf8_len(t) == 6 && !(on_boundary(t, 2) && on_boundary(t, 4))
}

fn hex_digit(c: char) -> (r: Option<u8>)
    ensures
        r == hex_val(c),
{
    let u = c as u32;
    if 0x30 <= u && u <= 0x39 {
        Some((u - 0x30) as u8)
    } else if 0x61 <= u && u <= 0x66 {
        Some((u - 0x61 + 10) as u8)
    } else if 0x41 <= u && u <= 0x46 {
        Some((u - 0x41 + 10) as u8)
    } else {
        None
    }
}

fn pair_byte(a: char, b: char) -> (r: Option<u8>)
    ensures
        r == byte_of_pair(a, b),
{
    match (hex_digit(a), hex_digit(b)) {
        (Some(x), Some(y)) => Some(16 * x + y),
        (None, Some(y)) => if a == '+' {
            Some(y)
        } else {
            None
        },
        _ => None,
    }
}

/// Reads a hex colour such as `#e74c3c`: the leading `#`s are dropped, six
/// characters must follow, each pair a hexadecimal byte.
pub fn hex_to_rgb(hex: &str) -> (r: Option<Rgb>)
    requires
        !hex_cuts_char(hex@),
    ensures
        r == parse_hex_color(hex@),
{
    let v = chars_of(hex);
    assert(hex@.skip(0) =~= hex@);
    let mut i: usize = 0;
    while i < v.len() && v[i] == '#'
        invariant
            v@ == hex@,
            i <= v@.len(),
            strip_hashes(hex@) == strip_hashes(hex@.skip(i as int)),
        decreases v@.len() - i,
    {
        assert(hex@.skip(i as int).drop_first() =~= hex@.skip(i + 1));
        i = i + 1;
    }
    let ghost t = hex@.skip(i as int);
    assert(strip_hashes(hex@) == t);
    if v.len() - i != 6 {
        return None;
    }
    let mut k: usize = i;
    while k < v.len()
        invariant
            v@ == hex@,
            i <= k <= v@.len(),
            t == hex@.skip(i as int),
            strip_hashes(hex@) == t,
            t.len() == 6,
            forall|q: int| 0 <= q < k - i ==> ascii_char(#[trigger] t[q]),
        decreases v@.len() - k,
    {
        if (v[k] as u32) >= 0x80 {
            assert(t[k - i] == v@[k as int]);
            assert(!ascii_char(t[k - i]));
            assert(!all_ascii(t));
            return None;
        }
        k = k + 1;
    }
    assert(all_ascii(t));
    let r = pair_byte(v[i], v[i + 1]);
    let g = pair_byte(v[i + 2], v[i + 3]);
    let b = pair_byte(v[i + 4], v[i + 5]);
    match (r, g, b) {
        (Some(r), Some(g), Some(b)) => Some(Rgb { r, g, b }),
        _ => None,
    }
}

/// The lower-case hexadecimal digit of `d`.
pub open spec fn hex_char(d: nat) -> char {
    if d < 10 {
        (d + 0x30) as char
    } else {
        (d - 10 + 0x61) as char
    }
}

/// The two lower-case hexadecimal digits of `n`.
pub open spec fn hex_pair(n: u8) -> Seq<char> {
    seq![hex_char(n as nat / 16), hex_char(n as nat % 16)]
}

/// The text `#rrggbb` of a colour, in lower case.
pub open spec fn hex_color_text(c: Rgb) -> Seq<char> {
    seq!['#'] + hex_pair(c.r) + hex_pair(c.g) + hex_pair(c.b)
}

fn hex_char_of(d: u8) -> (c: char)
    requires
        d < 16,
    ensures
        c == hex_char(d as nat),
{
    if d < 10 {
        ((0x30u8 + d) as char)
    } else {
        ((0x61u8 + d - 10) as char)
    }
}

fn push_hex_pair(s: &mut String, n: u8)
    ensures
        final(s)@ == old(s)@ + hex_pair(n),
{
    push_char(s, hex_char_of(n / 16));
    push_char(s, hex_char_of(n % 16));
    assert(final(s)@ =~= old(s)@ + hex_pair(n));
}

/// The text `#rrggbb` of a colour, in lower case.
pub fn rgb_to_hex(rgb: &Rgb) -> (s: String)
    ensures
        s@ == hex_color_text(*rgb),
{
    let mut s = String::new();
    push_char(&mut s, '#');
    push_hex_pair(&mut s, rgb.r);
    push_hex_pair(&mut s, rgb.g);
    push_hex_pair(&mut s, rgb.b);
    assert(s@ =~= hex_color_text(*rgb));
    s
}

proof fn lemma_hex_pair_reads_back(n: u8)
    ensures
        byte_of_pair(hex_pair(n)[0], hex_pair(n)[1]) == Some(n),
        ascii_char(hex_pair(n)[0]),
        ascii_char(hex_pair(n)[1]),
        hex_pair(n)[0] != '#',
{
    let hi = n as nat / 16;
    let lo = n as nat % 16;
    assert(n as nat == 16 * hi + lo);
    assert(hex_val(hex_char(hi)) == Some(hi as u8));
    assert(hex_val(hex_char(lo)) == Some(lo as u8));
}

/// Writing a colour as hex and reading the text back gives the same colour.
pub proof fn lemma_hex_round_trip(c: Rgb)
    ensures
        parse_hex_color(hex_color_text(c)) == Some(c),
        !hex_cuts_char(hex_color_text(c)),
{
    let s = hex_color_text(c);
    let t = hex_pair(c.r) + hex_pair(c.g) + hex_pair(c.b);
    lemma_hex_pair_reads_back(c.r);
    lemma_hex_pair_reads_back(c.g);
    lemma_hex_pair_reads_back(c.b);
    assert(s.drop_first() =~= t);
    assert(t[0] == hex_pair(c.r)[0]);
    assert(strip_hashes(t) == t);
    assert(strip_hashes(s) == t);
    assert(t[1] == hex_pair(c.r)[1]);
    assert(t[2] == hex_pair(c.g)[0]);
    assert(t[3] == hex_pair(c.g)[1]);
    assert(t[4] == hex_pair(c.b)[0]);
    assert(t[5] == hex_pair(c.b)[1]);
    assert(all_ascii(t));
    assert(utf8_len(t.take(0)) == 0);
    assert(t.take(1).drop_last() =~= t.take(0));
    assert(utf8_len(t.take(1)) == 1);
    assert(t.take(2).drop_last() =~= t.take(1));
    assert(utf8_len(t.take(2)) == 2);
    assert(t.take(3).drop_last() =~= t.take(2));
    assert(utf8_len(t.take(3)) == 3);
    assert(t.take(4).drop_last() =~= t.take(3));
    assert(utf8_len(t.take(4)) == 4);
    assert(on_boundary(t, 2));
    assert(on_boundary(t, 4));
}

/// The palette that groups without a colour take, in turn.
pub open spec fn palette_color(i: nat) -> Seq<char> {
    if i == 0 {
        "#3498db"@
    } else if i == 1 {
        "#2ecc71"@
    } else if i == 2 {
        "#e74c3c"@
    } else if i == 3 {
        "#9b59b6"@
    } else if i == 4 {
        "#f39c12"@
    } else if i == 5 {
        "#1abc9c"@
    } else if i == 6 {
        "#e67e22"@
    } else if i == 7 {
        "#34495e"@
    } else if i == 8 {
        "#16a085"@
    } else if i == 9 {
        "#c0392b"@
    } else if i == 10 {
        "#8e44ad"@
    } else {
        "#27ae60"@
    }
}

/// The colour of the group at `index`, going round a palette of twelve.
pub fn get_default_group_color(index: usize) -> (r: &'static str)
    ensures
        r@ == palette_color((index % 12) as nat),
{
    let i = index % 12;
    if i == 0 {
        "#3498db"
    } else if i == 1 {
        "#2ecc71"
    } else if i == 2 {
        "#e74c3c"
    } else if i == 3 {
        "#9b59b6"
    } else if i == 4 {
        "#f39c12"
    } else if i == 5 {
        "#1abc9c"
    } else if i == 6 {
        "#e67e22"
    } else if i == 7 {
        "#34495e"
    } else if i == 8 {
        "#16a085"
    } else if i == 9 {
        "#c0392b"
    } else if i == 10 {
        "#8e44ad"
    } else {
        "#27ae60"
    }
}

/// The escape `prefix r;g;b m` that selects the colour `c`.
pub open spec fn ansi_rgb_text(prefix: Seq<char>, c: Rgb) -> Seq<char> {
    prefix + decimal(c.r as nat) + seq![';'] + decimal(c.g as nat) + seq![';'] + decimal(c.b as nat)
        + seq!['m']
}

/// The escape that sets the foreground to the colour `hex` names, or nothing.
pub open spec fn ansi_fg_text(hex: Seq<char>) -> Seq<char> {
    match parse_hex_color(hex) {
        Some(c) => ansi_rgb_text("\x1b[38;2;"@, c),
        None => Seq::empty(),
    }
}

/// The escape that sets the background to the colour `hex` names, or nothing.
pub open spec fn ansi_bg_text(hex: Seq<char>) -> Seq<char> {
    match parse_hex_color(hex) {
        Some(c) => ansi_rgb_text("\x1b[48;2;"@, c),
        None => Seq::empty(),
    }
}

fn ansi_rgb(prefix: &str, c: &Rgb) -> (s: String)
    ensures
        s@ == ansi_rgb_text(prefix@, *c),
{
    let mut s = prefix.to_owned();
    push_decimal(&mut s, c.r as u64);
    push_char(&mut s, ';');
    push_decimal(&mut s, c.g as u64);
    push_char(&mut s, ';');
    push_decimal(&mut s, c.b as u64);
    push_char(&mut s, 'm');
    s
}

/// The 24-bit escape that sets the foreground colour, or an empty string for
/// a text that is not a colour.
pub fn ansi_fg(hex: &str) -> (s: String)
    requires
        !hex_cuts_char(hex@),
    ensures
        s@ == ansi_fg_text(hex@),
{
    match hex_to_rgb(hex) {
        Some(c) => ansi_rgb("\x1b[38;2;", &c),
        None => String::new(),
    }
}

/// The 24-bit escape that sets the background colour, or an empty string for
/// a text that is not a colour.
pub fn ansi_bg(hex: &str) -> (s: String)
    requires
        !hex_cuts_char(hex@),
    ensures
        s@ == ansi_bg_text(hex@),
{
    match hex_to_rgb(hex) {
        Some(c) => ansi_rgb("\x1b[48;2;", &c),
        None => String::new(),
    }
}

/// Resets all attributes.
pub const RESET: &'static str = "\x1b[0m";

/// Swaps foreground and background.
pub const REVERSE: &'static str = "\x1b[7m";

/// The colours of the sidebar and its menus.
#[derive(Debug)]
pub struct SidebarTheme {
    pub sidebar_bg: String,
    pub sidebar_fg: String,
    pub divider_fg: String,
    pub is_dark: bool,
    pub menu_selected_bg: String,
    pub menu_selected_fg: String,
    pub menu_bg: String,
    pub menu_fg: String,
}

impl Clone for SidebarTheme {
    fn clone(&self) -> (r: Self)
        ensures
            r == *self,
    {
        SidebarTheme {
            sidebar_bg: self.sidebar_bg.clone(),
            sidebar_fg: self.sidebar_fg.clone(),
            divider_fg: self.divider_fg.clone(),
            is_dark: self.is_dark,
            menu_selected_bg: self.menu_selected_bg.clone(),
            menu_selected_fg: self.menu_selected_fg.clone(),
            menu_bg: self.menu_bg.clone(),
            menu_fg: self.menu_fg.clone(),
        }
    }
}

impl SidebarTheme {
    /// The colours of the dark theme `catppuccin-mocha`.
    pub open spec fn is_catppuccin_mocha(&self) -> bool {
        &&& self.sidebar_bg@ == "#1e1e2e"@
        &&& self.sidebar_fg@ == "#cdd6f4"@
        &&& self.divider_fg@ == "#45475a"@
        &&& self.is_dark
        &&& self.menu_selected_bg@ == "#3c3c50"@
        &&& self.menu_selected_fg@ == "#ffffff"@
        &&& self.menu_bg@ == "#23232d"@
        &&& self.menu_fg@ == "#c8c8c8"@
    }

    /// The colours of the light theme `rose-pine-dawn`.
    pub open spec fn is_rose_pine_dawn(&self) -> bool {
        &&& self.sidebar_bg@ == "#faf4ed"@
        &&& self.sidebar_fg@ == "#575279"@
        &&& self.divider_fg@ == "#dfdad9"@
        &&& !self.is_dark
        &&& self.menu_selected_bg@ == "#cecacd"@
        &&& self.menu_selected_fg@ == "#575279"@
        &&& self.menu_bg@ == "#ebe5e0"@
        &&& self.menu_fg@ == "#575279"@
    }
}

/// The dark theme `catppuccin-mocha`.
pub fn catppuccin_mocha() -> (t: SidebarTheme)
    ensures
        t.is_catppuccin_mocha(),
{
    SidebarTheme {
        sidebar_bg: "#1e1e2e".to_owned(),
        sidebar_fg: "#cdd6f4".to_owned(),
        divider_fg: "#45475a".to_owned(),
        is_dark: true,
        menu_selected_bg: "#3c3c50".to_owned(),
        menu_selected_fg: "#ffffff".to_owned(),
        menu_bg: "#23232d".to_owned(),
        menu_fg: "#c8c8c8".to_owned(),
    }
}

/// The light theme `rose-pine-dawn`.
pub fn rose_pine_dawn() -> (t: SidebarTheme)
    ensures
        t.is_rose_pine_dawn(),
{
    SidebarTheme {
        sidebar_bg: "#faf4ed".to_owned(),
        sidebar_fg: "#575279".to_owned(),
        divider_fg: "#dfdad9".to_owned(),
        is_dark: false,
        menu_selected_bg: "#cecacd".to_owned(),
        menu_selected_fg: "#575279".to_owned(),
        menu_bg: "#ebe5e0".to_owned(),
        menu_fg: "#575279".to_owned(),
    }
}

/// The theme of that name; any other name, the empty one too, gives
/// `catppuccin-mocha`.
pub fn get_theme(name: &str) -> (t: SidebarTheme)
    ensures
        name@ == "rose-pine-dawn"@ ==> t.is_rose_pine_dawn(),
        name@ != "rose-pine-dawn"@ ==> t.is_catppuccin_mocha(),
        t.colors_ok(),
{
    let t = if str_eq(name, "rose-pine-dawn") {
        rose_pine_dawn()
    } else {
        catppuccin_mocha()
    };
    proof {
        lemma_themes_colors_ok(t);
    }
    t
}

proof fn lemma_strip_hashes_ascii(s: Seq<char>)
    requires
        all_ascii(s),
    ensures
        all_ascii(strip_hashes(s)),
    decreases s.len(),
{
    if s.len() > 0 && s[0] == '#' {
        assert forall|i: int| 0 <= i < s.drop_first().len() implies ascii_char(#[trigger] s.drop_first()[i]) by {
            assert(s.drop_first()[i] == s[i + 1]);
        }
        lemma_strip_hashes_ascii(s.drop_first());
    }
}

proof fn lemma_ascii_utf8_len(t: Seq<char>)
    requires
        all_ascii(t),
    ensures
        utf8_len(t) == t.len(),
        forall|k: int| 0 <= k <= t.len() ==> #[trigger] utf8_len(t.take(k)) == k,
    decreases t.len(),
{
    if t.len() > 0 {
        assert forall|i: int| 0 <= i < t.drop_last().len() implies ascii_char(#[trigger] t.drop_last()[i]) by {
            assert(t.drop_last()[i] == t[i]);
        }
        lemma_ascii_utf8_len(t.drop_last());
        assert(ascii_char(t[t.len() - 1]));
        assert forall|k: int| 0 <= k <= t.len() implies #[trigger] utf8_len(t.take(k)) == k by {
            if k < t.len() {
                assert(t.take(k) =~= t.drop_last().take(k));
            } else {
                assert(t.take(k) =~= t);
            }
        }
    }
}

/// A text of ASCII characters never makes reading it as a colour panic.
pub proof fn lemma_ascii_never_cuts(s: Seq<char>)
    requires
        all_ascii(s),
    ensures
        !hex_cuts_char(s),
{
    lemma_strip_hashes_ascii(s);
    let t = strip_hashes(s);
    lemma_ascii_utf8_len(t);
    if utf8_len(t) == 6 {
        assert(utf8_len(t.take(2)) == 2);
        assert(utf8_len(t.take(4)) == 4);
    }
}

proof fn lemma_seven_ascii(s: Seq<char>)
    requires
        s.len() == 7,
        ascii_char(s[0]),
        ascii_char(s[1]),
        ascii_char(s[2]),
        ascii_char(s[3]),
        ascii_char(s[4]),
        ascii_char(s[5]),
        ascii_char(s[6]),
    ensures
        !hex_cuts_char(s),
{
    assert(all_ascii(s));
    lemma_ascii_never_cuts(s);
}

impl SidebarTheme {
    /// None of the colours would make reading it as hex panic.
    pub open spec fn colors_ok(&self) -> bool {
        &&& !hex_cuts_char(self.sidebar_bg@)
        &&& !hex_cuts_char(self.sidebar_fg@)
        &&& !hex_cuts_char(self.divider_fg@)
        &&& !hex_cuts_char(self.menu_selected_bg@)
        &&& !hex_cuts_char(self.menu_selected_fg@)
        &&& !hex_cuts_char(self.menu_bg@)
        &&& !hex_cuts_char(self.menu_fg@)
    }
}

/// The colours of both themes are plain hex texts.
pub proof fn lemma_themes_colors_ok(t: SidebarTheme)
    requires
        t.is_catppuccin_mocha() || t.is_rose_pine_dawn(),
    ensures
        t.colors_ok(),
{
    reveal_strlit("#1e1e2e");
    reveal_strlit("#cdd6f4");
    reveal_strlit("#45475a");
    reveal_strlit("#3c3c50");
    reveal_strlit("#ffffff");
    reveal_strlit("#23232d");
    reveal_strlit("#c8c8c8");
    reveal_strlit("#faf4ed");
    reveal_strlit("#575279");
    reveal_strlit("#dfdad9");
    reveal_strlit("#cecacd");
    reveal_strlit("#ebe5e0");
    lemma_seven_ascii(t.sidebar_bg@);
    lemma_seven_ascii(t.sidebar_fg@);
    lemma_seven_ascii(t.divider_fg@);
    lemma_seven_ascii(t.menu_selected_bg@);
    lemma_seven_ascii(t.menu_selected_fg@);
    lemma_seven_ascii(t.menu_bg@);
    lemma_seven_ascii(t.menu_fg@);
}

} // verus!
