//! Character-level text primitives shared by the parsers and renderers:
//! whitespace, trimming, searching, splitting, decimal numbers and padding.
//! Every string is modelled by its sequence of Unicode scalar values.
use vstd::prelude::*;

verus! {

// ---------------------------------------------------------------------------
// Specifications
// ---------------------------------------------------------------------------

/// The Unicode `White_Space` property, which `char::is_whitespace` tests.
pub open spec fn is_ws(c: char) -> bool {
    let u = c as u32;
    ||| 0x9 <= u <= 0xd
    ||| u == 0x20
    ||| u == 0x85
    ||| u == 0xa0
    ||| u == 0x1680
    ||| 0x2000 <= u <= 0x200a
    ||| u == 0x2028
    ||| u == 0x2029
    ||| u == 0x202f
    ||| u == 0x205f
    ||| u == 0x3000
}

/// `s` without its leading whitespace.
pub open spec fn trim_start(s: Seq<char>) -> Seq<char>
    decreases s.len(),
{
    if s.len() > 0 && is_ws(s[0]) {
        trim_start(s.drop_first())
    } else {
        s
    }
}

/// `s` without its trailing whitespace.
pub open spec fn trim_end(s: Seq<char>) -> Seq<char>
    decreases s.len(),
{
    if s.len() > 0 && is_ws(s.last()) {
        trim_end(s.drop_last())
    } else {
        s
    }
}

/// `s` without leading and trailing whitespace (`str::trim`).
pub open spec fn trim(s: Seq<char>) -> Seq<char> {
    trim_end(trim_start(s))
}

/// The first index at or after `i` where `c` occurs in `s`.
pub open spec fn find_char_from(s: Seq<char>, c: char, i: int) -> Option<int>
    decreases s.len() - i,
{
    if i < 0 || i >= s.len() {
        None
    } else if s[i] == c {
        Some(i)
    } else {
        find_char_from(s, c, i + 1)
    }
}

/// The first index where `c` occurs in `s`.
pub open spec fn find_char(s: Seq<char>, c: char) -> Option<int> {
    find_char_from(s, c, 0)
}

/// The last index where `c` occurs in the first `n` characters of `s`.
pub open spec fn rfind_char_before(s: Seq<char>, c: char, n: int) -> Option<int>
    decreases n,
{
    if n <= 0 {
        None
    } else if s[n - 1] == c {
        Some(n - 1)
    } else {
        rfind_char_before(s, c, n - 1)
    }
}

/// The last index where `c` occurs in `s`.
pub open spec fn rfind_char(s: Seq<char>, c: char) -> Option<int> {
    rfind_char_before(s, c, s.len() as int)
}

/// `p` occurs in `s` starting at index `i`.
pub open spec fn occurs_at(s: Seq<char>, p: Seq<char>, i: int) -> bool {
    0 <= i && i + p.len() <= s.len() && s.subrange(i, i + p.len()) == p
}

/// The first index at or after `i` where `p` occurs in `s`.
pub open spec fn find_from(s: Seq<char>, p: Seq<char>, i: int) -> Option<int>
    decreases s.len() + 1 - i,
{
    if i < 0 || i + p.len() > s.len() {
        None
    } else if occurs_at(s, p, i) {
        Some(i)
    } else {
        find_from(s, p, i + 1)
    }
}

/// The first index where `p` occurs in `s` (`str::find`).
pub open spec fn find(s: Seq<char>, p: Seq<char>) -> Option<int> {
    find_from(s, p, 0)
}

/// The last index `i` with `i + p.len() <= n` where `p` occurs in `s`.
pub open spec fn rfind_before(s: Seq<char>, p: Seq<char>, n: int) -> Option<int>
    decreases n + 1,
{
    if n < p.len() {
        None
    } else if occurs_at(s, p, n - p.len()) {
        Some(n - p.len())
    } else {
        rfind_before(s, p, n - 1)
    }
}

/// The last index where `p` occurs in `s` (`str::rfind`).
pub open spec fn rfind(s: Seq<char>, p: Seq<char>) -> Option<int> {
    rfind_before(s, p, s.len() as int)
}

/// The pieces of `s` between occurrences of `c` (`str::split` on a char).
pub open spec fn split_on(s: Seq<char>, c: char) -> Seq<Seq<char>>
    decreases s.len(),
{
    match find_char(s, c) {
        None => seq![s],
        Some(i) => {
            proof {
                lemma_find_char_from_bounds(s, c, 0);
            }
            seq![s.take(i)].add(split_on(s.skip(i + 1), c))
        },
    }
}

/// `s` split at the first `c` (`str::split_once`).
pub open spec fn split_once(s: Seq<char>, c: char) -> Option<(Seq<char>, Seq<char>)> {
    match find_char(s, c) {
        None => None,
        Some(i) => Some((s.take(i), s.skip(i + 1))),
    }
}

/// `s` split at its first two occurrences of `c` at most (`str::splitn(3, c)`).
pub open spec fn splitn3(s: Seq<char>, c: char) -> Seq<Seq<char>> {
    match split_once(s, c) {
        None => seq![s],
        Some((a, rest)) => match split_once(rest, c) {
            None => seq![a, rest],
            Some((b, tail)) => seq![a, b, tail],
        },
    }
}

/// `s` without one trailing `c`, if it ends in one.
pub open spec fn strip_last(s: Seq<char>, c: char) -> Seq<char> {
    if s.len() > 0 && s.last() == c {
        s.drop_last()
    } else {
        s
    }
}

/// The lines of `s` (`str::lines`): split at `\n`, with a `\r` before the
/// `\n` removed, and no final empty line after a trailing `\n`.
pub open spec fn lines(s: Seq<char>) -> Seq<Seq<char>> {
    let parts = split_on(s, '\n');
    let kept = if parts.last().len() == 0 {
        parts.drop_last()
    } else {
        parts
    };
    Seq::new(
        kept.len(),
        |i: int|
            if i < parts.len() - 1 {
                strip_last(kept[i], '\r')
            } else {
                kept[i]
            },
    )
}

/// `c` is an ASCII decimal digit.
pub open spec fn is_digit(c: char) -> bool {
    '0' <= c <= '9'
}

/// The value of the decimal digit `c`.
pub open spec fn digit_value(c: char) -> nat {
    (c as nat - '0' as nat) as nat
}

/// The value of a string of decimal digits.
pub open spec fn digits_value(s: Seq<char>) -> nat
    decreases s.len(),
{
    if s.len() == 0 {
        0
    } else {
        digits_value(s.drop_last()) * 10 + digit_value(s.last())
    }
}

/// Every character of `s` is a decimal digit.
pub open spec fn all_digits(s: Seq<char>) -> bool {
    forall|i: int| 0 <= i < s.len() ==> is_digit(#[trigger] s[i])
}

/// The digits of an unsigned number as `str::parse` reads them: one leading
/// `+` is allowed.
pub open spec fn unsigned_body(s: Seq<char>) -> Seq<char> {
    if s.len() > 0 && s[0] == '+' {
        s.drop_first()
    } else {
        s
    }
}

/// What `str::parse` gives for an unsigned integer type whose largest value
/// is `max`: the value, or `None` where the text is not a number or too big.
pub open spec fn parse_unsigned(s: Seq<char>, max: nat) -> Option<nat> {
    let d = unsigned_body(s);
    if d.len() > 0 && all_digits(d) && digits_value(d) <= max {
        Some(digits_value(d))
    } else {
        None
    }
}

/// The character of the decimal digit `d`.
pub open spec fn digit_char(d: nat) -> char {
    (d + '0' as nat) as char
}

/// The decimal representation of `n`, as `Display` writes it.
pub open spec fn decimal(n: nat) -> Seq<char>
    decreases n,
{
    if n < 10 {
        seq![digit_char(n)]
    } else {
        decimal(n / 10).push(digit_char(n % 10))
    }
}

/// `n` copies of `c`.
pub open spec fn repeat(c: char, n: nat) -> Seq<char> {
    Seq::new(n, |i: int| c)
}

/// The first index at or after `i` where `s` holds whitespace, or its length.
pub open spec fn word_end(s: Seq<char>, i: int) -> int
    decreases s.len() - i,
{
    if i >= s.len() {
        s.len() as int
    } else if is_ws(s[i]) {
        i
    } else {
        word_end(s, i + 1)
    }
}

/// The words of `s` (`str::split_whitespace`): its maximal runs of
/// characters that are not whitespace, in order.
pub open spec fn words(s: Seq<char>) -> Seq<Seq<char>>
    decreases s.len(),
{
    if s.len() == 0 {
        Seq::empty()
    } else if is_ws(s[0]) {
        words(s.drop_first())
    } else {
        let n = word_end(s, 1);
        proof {
            lemma_word_end_bounds(s, 1);
        }
        seq![s.take(n)] + words(s.skip(n))
    }
}

/// `s` cut or padded with spaces to exactly `cols` characters.
pub open spec fn fit_text(s: Seq<char>, cols: nat) -> Seq<char> {
    if s.len() >= cols {
        s.take(cols as int)
    } else {
        s + repeat(' ', (cols - s.len()) as nat)
    }
}

/// `s` cut or padded with spaces to exactly `cols` characters; unchanged when
/// `cols` is zero.
pub open spec fn pad_visible(s: Seq<char>, cols: nat) -> Seq<char> {
    if cols == 0 {
        s
    } else if s.len() >= cols {
        s.take(cols as int)
    } else {
        s + repeat(' ', (cols - s.len()) as nat)
    }
}

// ---------------------------------------------------------------------------
// Lemmas
// ---------------------------------------------------------------------------

pub proof fn lemma_word_end_bounds(s: Seq<char>, i: int)
    requires
        0 <= i <= s.len(),
    ensures
        i <= word_end(s, i) <= s.len(),
        forall|k: int| i <= k < word_end(s, i) ==> !is_ws(#[trigger] s[k]),
        word_end(s, i) < s.len() ==> is_ws(s[word_end(s, i)]),
    decreases s.len() - i,
{
    if i < s.len() && !is_ws(s[i]) {
        lemma_word_end_bounds(s, i + 1);
    }
}

/// `word_end` is the end of the run of non-whitespace that starts at `i`.
pub proof fn lemma_word_end_is(s: Seq<char>, i: int, m: int)
    requires
        0 <= i <= m <= s.len(),
        forall|k: int| i <= k < m ==> !is_ws(#[trigger] s[k]),
        m == s.len() || is_ws(s[m]),
    ensures
        word_end(s, i) == m,
    decreases m - i,
{
    if i < m {
        lemma_word_end_is(s, i + 1, m);
    }
}

/// `find_char_from` finds the first `c` at or after `i`, or nothing.
pub proof fn lemma_find_char_is(s: Seq<char>, c: char, i: int, m: int)
    requires
        0 <= i <= m <= s.len(),
        forall|k: int| i <= k < m ==> #[trigger] s[k] != c,
        m == s.len() || s[m] == c,
    ensures
        find_char_from(s, c, i) == (if m < s.len() {
            Some(m)
        } else {
            None::<int>
        }),
    decreases m - i,
{
    if i < m {
        lemma_find_char_is(s, c, i + 1, m);
    }
}

pub proof fn lemma_find_char_from_bounds(s: Seq<char>, c: char, i: int)
    requires
        i >= 0,
    ensures
        find_char_from(s, c, i) matches Some(j) ==> i <= j < s.len() && s[j] == c && forall|k: int|
            i <= k < j ==> s[k] != c,
        find_char_from(s, c, i) is None ==> forall|k: int| i <= k < s.len() ==> s[k] != c,
    decreases s.len() - i,
{
    if i < 0 || i >= s.len() {
    } else if s[i] == c {
    } else {
        lemma_find_char_from_bounds(s, c, i + 1);
    }
}


pub proof fn lemma_find_char_skip(s: Seq<char>, c: char, start: int, j: int)
    requires
        0 <= start <= s.len(),
        0 <= j,
    ensures
        find_char_from(s.skip(start), c, j) == (match find_char_from(s, c, start + j) {
            Some(k) => Some(k - start),
            None => None,
        }),
    decreases s.len() - start - j,
{
    if j >= s.len() - start {
    } else {
        assert(s.skip(start)[j] == s[start + j]);
        if s[start + j] != c {
            lemma_find_char_skip(s, c, start, j + 1);
        }
    }
}

pub proof fn lemma_split_on_unfold(s: Seq<char>, c: char, start: int)
    requires
        0 <= start <= s.len(),
    ensures
        find_char_from(s, c, start) matches Some(k) ==> split_on(s.skip(start), c) == seq![
            s.subrange(start, k),
        ] + split_on(s.skip(k + 1), c),
        find_char_from(s, c, start) is None ==> split_on(s.skip(start), c) == seq![s.skip(start)],
{
    lemma_find_char_skip(s, c, start, 0);
    lemma_find_char_from_bounds(s, c, start);
    let t = s.skip(start);
    match find_char_from(s, c, start) {
        Some(k) => {
            assert(find_char(t, c) == Some(k - start));
            assert(t.take(k - start) =~= s.subrange(start, k));
            assert(t.skip(k - start + 1) =~= s.skip(k + 1));
        },
        None => {},
    }
}

pub proof fn lemma_rfind_char_before_bounds(s: Seq<char>, c: char, n: int)
    requires
        n <= s.len(),
    ensures
        rfind_char_before(s, c, n) matches Some(j) ==> 0 <= j < n && s[j] == c && forall|k: int|
            j < k < n ==> s[k] != c,
        rfind_char_before(s, c, n) is None ==> forall|k: int| 0 <= k < n ==> s[k] != c,
    decreases n,
{
    if n > 0 && s[n - 1] != c {
        lemma_rfind_char_before_bounds(s, c, n - 1);
    }
}

pub proof fn lemma_rfind_before_bounds(s: Seq<char>, p: Seq<char>, n: int)
    ensures
        rfind_before(s, p, n) matches Some(j) ==> 0 <= j && j + p.len() <= n && occurs_at(s, p, j),
    decreases n + 1,
{
    if n < p.len() {
    } else if occurs_at(s, p, n - p.len()) {
    } else {
        lemma_rfind_before_bounds(s, p, n - 1);
    }
}

pub proof fn lemma_find_from_bounds(s: Seq<char>, p: Seq<char>, i: int)
    requires
        i >= 0,
    ensures
        find_from(s, p, i) matches Some(j) ==> i <= j && occurs_at(s, p, j) && forall|k: int|
            i <= k < j ==> !occurs_at(s, p, k),
        find_from(s, p, i) is None ==> forall|k: int| i <= k ==> !occurs_at(s, p, k),
    decreases s.len() + 1 - i,
{
    if i + p.len() > s.len() {
    } else if occurs_at(s, p, i) {
    } else {
        lemma_find_from_bounds(s, p, i + 1);
    }
}

pub proof fn lemma_digits_value_take_mono(s: Seq<char>, i: int, j: int)
    requires
        0 <= i <= j <= s.len(),
    ensures
        digits_value(s.take(i)) <= digits_value(s.take(j)),
    decreases j - i,
{
    if i < j {
        lemma_digits_value_take_mono(s, i, j - 1);
        assert(s.take(j).drop_last() =~= s.take(j - 1));
    }
}

pub proof fn lemma_trim_start_skip(s: Seq<char>, i: int)
    requires
        0 <= i <= s.len(),
        forall|k: int| 0 <= k < i ==> is_ws(#[trigger] s[k]),
    ensures
        trim_start(s) == trim_start(s.skip(i)),
    decreases i,
{
    if i > 0 {
        assert(is_ws(s[0]));
        assert forall|k: int| 0 <= k < i - 1 implies is_ws(#[trigger] s.drop_first()[k]) by {
            assert(s.drop_first()[k] == s[k + 1]);
        }
        assert(s.drop_first().skip(i - 1) =~= s.skip(i));
        lemma_trim_start_skip(s.drop_first(), i - 1);
    } else {
        assert(s.skip(0) =~= s);
    }
}

pub proof fn lemma_trim_end_take(s: Seq<char>, j: int)
    requires
        0 <= j <= s.len(),
        forall|k: int| j <= k < s.len() ==> is_ws(#[trigger] s[k]),
    ensures
        trim_end(s) == trim_end(s.take(j)),
    decreases s.len() - j,
{
    if j < s.len() {
        assert(s.drop_last().take(j) =~= s.take(j));
        lemma_trim_end_take(s.drop_last(), j);
    } else {
        assert(s.take(j) =~= s);
    }
}

// ---------------------------------------------------------------------------
// Executable helpers
// ---------------------------------------------------------------------------

/// `String::push`. Trusted: afterwards `s` holds its old characters
/// followed by `c`.
#[verifier::external_body]
pub(crate) fn push_char(s: &mut String, c: char)
    ensures
        final(s)@ == old(s)@.push(c),
{
    s.push(c)
}

/// `String::pop`. Trusted: the last character of `s` is removed, and an
/// empty `s` stays empty.
#[verifier::external_body]
pub(crate) fn pop_char(s: &mut String)
    ensures
        final(s)@ == (if old(s)@.len() > 0 {
            old(s)@.drop_last()
        } else {
            old(s)@
        }),
{
    s.pop();
}

/// `char::is_whitespace`.
pub fn is_whitespace(c: char) -> (r: bool)
    ensures
        r == is_ws(c),
{
    let u = c as u32;
    (0x9 <= u && u <= 0xd) || u == 0x20 || u == 0x85 || u == 0xa0 || u == 0x1680 || (0x2000
        <= u && u <= 0x200a) || u == 0x2028 || u == 0x2029 || u == 0x202f || u == 0x205f || u
        == 0x3000
}

/// The characters of `s`.
pub fn chars_of(s: &str) -> (v: Vec<char>)
    ensures
        v@ == s@,
{
    let mut v: Vec<char> = Vec::new();
    let n = s.unicode_len();
    let mut i: usize = 0;
    while i < n
        invariant
            n == s@.len(),
            i <= n,
            v@ == s@.take(i as int),
        decreases n - i,
    {
        let c = s.get_char(i);
        v.push(c);
        assert(s@.take(i + 1) =~= s@.take(i as int).push(c));
        i = i + 1;
    }
    assert(s@.take(n as int) =~= s@);
    v
}

/// The characters `from..to` of `v`, as a `String`.
pub fn string_of_range(v: &Vec<char>, from: usize, to: usize) -> (r: String)
    requires
        from <= to <= v.len(),
    ensures
        r@ == v@.subrange(from as int, to as int),
{
    let mut r = String::new();
    let mut i = from;
    while i < to
        invariant
            from <= i <= to <= v.len(),
            r@ == v@.subrange(from as int, i as int),
        decreases to - i,
    {
        push_char(&mut r, v[i]);
        assert(v@.subrange(from as int, i + 1) =~= v@.subrange(from as int, i as int).push(v@[i as int]));
        i = i + 1;
    }
    r
}

/// The characters `from..to` of `v`.
pub fn vec_range(v: &Vec<char>, from: usize, to: usize) -> (r: Vec<char>)
    requires
        from <= to <= v.len(),
    ensures
        r@ == v@.subrange(from as int, to as int),
{
    let mut r: Vec<char> = Vec::new();
    let mut i = from;
    while i < to
        invariant
            from <= i <= to <= v.len(),
            r@ == v@.subrange(from as int, i as int),
        decreases to - i,
    {
        r.push(v[i]);
        assert(v@.subrange(from as int, i + 1) =~= v@.subrange(from as int, i as int).push(v@[i as int]));
        i = i + 1;
    }
    r
}

/// The whole of `v` as a `String`.
pub fn string_of(v: &Vec<char>) -> (r: String)
    ensures
        r@ == v@,
{
    let r = string_of_range(v, 0, v.len());
    assert(v@.subrange(0, v.len() as int) =~= v@);
    r
}

/// Appends the characters of `v` to `s`.
pub fn push_chars(s: &mut String, v: &Vec<char>)
    ensures
        final(s)@ == old(s)@ + v@,
{
    let ghost start = s@;
    let mut i: usize = 0;
    while i < v.len()
        invariant
            i <= v.len(),
            s@ == start + v@.take(i as int),
        decreases v.len() - i,
    {
        push_char(s, v[i]);
        assert(v@.take(i + 1) =~= v@.take(i as int).push(v@[i as int]));
        i = i + 1;
    }
    assert(v@.take(v.len() as int) =~= v@);
}

/// Appends `n` copies of `c` to `s`.
pub fn push_repeat(s: &mut String, c: char, n: usize)
    ensures
        final(s)@ == old(s)@ + repeat(c, n as nat),
{
    let ghost start = s@;
    let mut i: usize = 0;
    while i < n
        invariant
            i <= n,
            s@ == start + repeat(c, i as nat),
        decreases n - i,
    {
        push_char(s, c);
        assert(repeat(c, (i + 1) as nat) =~= repeat(c, i as nat).push(c));
        i = i + 1;
    }
}

/// The string made of `n` copies of `c`.
pub fn repeat_char(c: char, n: usize) -> (r: String)
    ensures
        r@ == repeat(c, n as nat),
{
    let mut r = String::new();
    push_repeat(&mut r, c, n);
    assert(Seq::<char>::empty() + repeat(c, n as nat) =~= repeat(c, n as nat));
    r
}

/// Appends the decimal representation of `n` to `s`.
pub fn push_decimal(s: &mut String, n: u64)
    ensures
        final(s)@ == old(s)@ + decimal(n as nat),
    decreases n,
{
    let ghost start = s@;
    if n >= 10 {
        push_decimal(s, n / 10);
    }
    let d = n % 10;
    let c = char_of_digit(d);
    push_char(s, c);
    assert(s@ =~= start + decimal(n as nat));
}

fn char_of_digit(d: u64) -> (c: char)
    requires
        d < 10,
    ensures
        c == digit_char(d as nat),
{
    if d == 0 {
        '0'
    } else if d == 1 {
        '1'
    } else if d == 2 {
        '2'
    } else if d == 3 {
        '3'
    } else if d == 4 {
        '4'
    } else if d == 5 {
        '5'
    } else if d == 6 {
        '6'
    } else if d == 7 {
        '7'
    } else if d == 8 {
        '8'
    } else {
        '9'
    }
}

/// Whether `a` and `b` hold the same characters.
pub fn chars_eq(a: &Vec<char>, b: &Vec<char>) -> (r: bool)
    ensures
        r == (a@ == b@),
{
    if a.len() != b.len() {
        return false;
    }
    let mut i: usize = 0;
    while i < a.len()
        invariant
            a.len() == b.len(),
            i <= a.len(),
            forall|k: int| 0 <= k < i ==> a@[k] == b@[k],
        decreases a.len() - i,
    {
        if a[i] != b[i] {
            return false;
        }
        i = i + 1;
    }
    assert(a@ =~= b@);
    true
}

/// Whether the characters `lo..hi` of `v` are the text `s`.
pub fn range_is(v: &Vec<char>, lo: usize, hi: usize, s: &str) -> (r: bool)
    requires
        lo <= hi <= v.len(),
    ensures
        r == (v@.subrange(lo as int, hi as int) == s@),
{
    let w = chars_of(s);
    if w.len() != hi - lo {
        return false;
    }
    let mut i: usize = 0;
    while i < w.len()
        invariant
            w@ == s@,
            w@.len() == hi - lo,
            lo <= hi <= v.len(),
            i <= w@.len(),
            forall|k: int| 0 <= k < i ==> v@[lo + k] == w@[k],
        decreases w@.len() - i,
    {
        if v[lo + i] != w[i] {
            assert(v@.subrange(lo as int, hi as int)[i as int] != s@[i as int]);
            return false;
        }
        i = i + 1;
    }
    assert(v@.subrange(lo as int, hi as int) =~= s@);
    true
}

/// Whether `a` and `b` hold the same characters.
pub fn str_eq(a: &str, b: &str) -> (r: bool)
    ensures
        r == (a@ == b@),
{
    let va = chars_of(a);
    let vb = chars_of(b);
    chars_eq(&va, &vb)
}

/// The first index at or after `from` where `c` occurs in `v`.
pub fn find_char_in(v: &Vec<char>, c: char, from: usize) -> (r: Option<usize>)
    ensures
        r matches Some(j) ==> find_char_from(v@, c, from as int) == Some(j as int),
        r is None ==> find_char_from(v@, c, from as int) is None,
{
    let mut i = from;
    while i < v.len()
        invariant
            from <= i,
            find_char_from(v@, c, from as int) == find_char_from(v@, c, i as int),
        decreases v.len() - i,
    {
        if v[i] == c {
            return Some(i);
        }
        i = i + 1;
    }
    None
}

/// The last index before `n` where `c` occurs in `v`.
pub fn rfind_char_in(v: &Vec<char>, c: char, n: usize) -> (r: Option<usize>)
    requires
        n <= v.len(),
    ensures
        r matches Some(j) ==> rfind_char_before(v@, c, n as int) == Some(j as int),
        r is None ==> rfind_char_before(v@, c, n as int) is None,
{
    let mut i = n;
    while i > 0
        invariant
            i <= n <= v.len(),
            rfind_char_before(v@, c, n as int) == rfind_char_before(v@, c, i as int),
        decreases i,
    {
        if v[i - 1] == c {
            return Some(i - 1);
        }
        i = i - 1;
    }
    None
}

/// Whether `p` occurs in `v` at index `i`.
pub fn occurs_at_in(v: &Vec<char>, p: &Vec<char>, i: usize) -> (r: bool)
    ensures
        r == occurs_at(v@, p@, i as int),
{
    if i > v.len() || p.len() > v.len() - i {
        return false;
    }
    let mut k: usize = 0;
    while k < p.len()
        invariant
            i + p.len() <= v.len(),
            k <= p.len(),
            forall|m: int| 0 <= m < k ==> v@[i + m] == p@[m],
        decreases p.len() - k,
    {
        if v[i + k] != p[k] {
            assert(v@.subrange(i as int, i + p.len())[k as int] != p@[k as int]);
            return false;
        }
        k = k + 1;
    }
    assert(v@.subrange(i as int, i + p.len()) =~= p@);
    true
}

/// The first index at or after `from` where `p` occurs in `v`.
pub fn find_in(v: &Vec<char>, p: &Vec<char>, from: usize) -> (r: Option<usize>)
    ensures
        r matches Some(j) ==> find_from(v@, p@, from as int) == Some(j as int),
        r is None ==> find_from(v@, p@, from as int) is None,
{
    let mut i = from;
    while i <= v.len() && p.len() <= v.len() - i
        invariant
            from <= i,
            find_from(v@, p@, from as int) == find_from(v@, p@, i as int),
        decreases v.len() + 1 - i,
    {
        if occurs_at_in(v, p, i) {
            return Some(i);
        }
        if i == v.len() {
            assert(find_from(v@, p@, (i + 1) as int) is None);
            return None;
        }
        i = i + 1;
    }
    None
}

/// The last index where `p` occurs in `v`.
pub fn rfind_in(v: &Vec<char>, p: &Vec<char>) -> (r: Option<usize>)
    ensures
        r matches Some(j) ==> rfind(v@, p@) == Some(j as int),
        r is None ==> rfind(v@, p@) is None,
{
    let mut n = v.len();
    while n >= p.len()
        invariant
            n <= v.len(),
            rfind(v@, p@) == rfind_before(v@, p@, n as int),
        decreases n,
    {
        if occurs_at_in(v, p, n - p.len()) {
            return Some(n - p.len());
        }
        if n == 0 {
            assert(v@.subrange(0, 0) =~= p@);
            return None;
        }
        n = n - 1;
    }
    None
}


/// The `(start, end)` bounds, in `v`, of the pieces of `v` between the
/// occurrences of `c` (`split_on`).
pub fn split_ranges(v: &Vec<char>, c: char) -> (r: Vec<(usize, usize)>)
    ensures
        r@.len() == split_on(v@, c).len(),
        forall|i: int|
            0 <= i < r@.len() ==> (#[trigger] r@[i]).0 <= r@[i].1 <= v@.len() && v@.subrange(
                r@[i].0 as int,
                r@[i].1 as int,
            ) == split_on(v@, c)[i],
{
    let mut r: Vec<(usize, usize)> = Vec::new();
    let mut start: usize = 0;
    let n = v.len();
    assert(v@.skip(0) =~= v@);
    loop
        invariant
            n == v@.len(),
            start <= v@.len(),
            split_on(v@, c) == r@.map_values(
                |p: (usize, usize)| v@.subrange(p.0 as int, p.1 as int),
            ) + split_on(v@.skip(start as int), c),
            forall|i: int|
                0 <= i < r@.len() ==> (#[trigger] r@[i]).0 <= r@[i].1 <= v@.len(),
        decreases v@.len() - start,
    {
        let ghost f = |p: (usize, usize)| v@.subrange(p.0 as int, p.1 as int);
        proof {
            lemma_split_on_unfold(v@, c, start as int);
            lemma_find_char_from_bounds(v@, c, start as int);
        }
        match find_char_in(v, c, start) {
            Some(k) => {
                assert(k < n);
                let ghost old_r = r@;
                r.push((start, k));
                proof {
                    assert(r@.map_values(f) =~= old_r.map_values(f).push(
                        v@.subrange(start as int, k as int),
                    ));
                    assert(split_on(v@, c) =~= r@.map_values(f) + split_on(
                        v@.skip(k + 1),
                        c,
                    ));
                }
                start = k + 1;
            },
            None => {
                let ghost old_r = r@;
                r.push((start, v.len()));
                proof {
                    assert(v@.subrange(start as int, v@.len() as int) =~= v@.skip(start as int));
                    assert(r@.map_values(f) =~= old_r.map_values(f).push(v@.skip(start as int)));
                    assert(split_on(v@, c) =~= r@.map_values(f));
                    assert forall|i: int| 0 <= i < r@.len() implies v@.subrange(
                        (#[trigger] r@[i]).0 as int,
                        r@[i].1 as int,
                    ) == split_on(v@, c)[i] by {
                        assert(r@.map_values(f)[i] == f(r@[i]));
                    }
                }
                return r;
            },
        }
    }
}

/// The `(start, end)` bounds, in `v`, of the lines of `v` (`lines`).
pub fn line_ranges(v: &Vec<char>) -> (r: Vec<(usize, usize)>)
    ensures
        r@.len() == lines(v@).len(),
        forall|i: int|
            0 <= i < r@.len() ==> (#[trigger] r@[i]).0 <= r@[i].1 <= v@.len() && v@.subrange(
                r@[i].0 as int,
                r@[i].1 as int,
            ) == lines(v@)[i],
{
    let parts = split_ranges(v, '\n');
    let ghost ps = split_on(v@, '\n');
    proof {
        lemma_split_on_nonempty(v@, '\n');
    }
    let np = parts.len();
    let last = parts[np - 1];
    let count = if last.0 == last.1 {
        np - 1
    } else {
        np
    };
    proof {
        assert(ps.last() == v@.subrange(last.0 as int, last.1 as int));
    }
    let mut r: Vec<(usize, usize)> = Vec::new();
    let mut i: usize = 0;
    while i < count
        invariant
            np == parts@.len(),
            np == ps.len(),
            ps == split_on(v@, '\n'),
            count <= np,
            count == lines(v@).len(),
            forall|j: int|
                0 <= j < parts@.len() ==> (#[trigger] parts@[j]).0 <= parts@[j].1 <= v@.len()
                    && v@.subrange(parts@[j].0 as int, parts@[j].1 as int) == ps[j],
            i <= count,
            r@.len() == i,
            forall|j: int|
                0 <= j < i ==> (#[trigger] r@[j]).0 <= r@[j].1 <= v@.len() && v@.subrange(
                    r@[j].0 as int,
                    r@[j].1 as int,
                ) == lines(v@)[j],
        decreases count - i,
    {
        let (a, b) = parts[i];
        let ghost piece = v@.subrange(a as int, b as int);
        if i + 1 < np && b > a && v[b - 1] == '\r' {
            proof {
                assert(piece.last() == v@[b - 1]);
                assert(piece.drop_last() =~= v@.subrange(a as int, b - 1));
            }
            r.push((a, b - 1));
        } else {
            r.push((a, b));
        }
        i = i + 1;
    }
    r
}

pub proof fn lemma_split_on_nonempty(s: Seq<char>, c: char)
    ensures
        split_on(s, c).len() >= 1,
    decreases s.len(),
{
    match find_char(s, c) {
        None => {},
        Some(i) => {
            lemma_find_char_from_bounds(s, c, 0);
            lemma_split_on_nonempty(s.skip(i + 1), c);
        },
    }
}

/// The `(start, end)` bounds, in `v`, of the words of `v@.subrange(lo, hi)`
/// (`words`).
pub fn word_ranges(v: &Vec<char>, lo: usize, hi: usize) -> (r: Vec<(usize, usize)>)
    requires
        lo <= hi <= v.len(),
    ensures
        r@.len() == words(v@.subrange(lo as int, hi as int)).len(),
        forall|i: int|
            0 <= i < r@.len() ==> lo <= (#[trigger] r@[i]).0 <= r@[i].1 <= hi && v@.subrange(
                r@[i].0 as int,
                r@[i].1 as int,
            ) == words(v@.subrange(lo as int, hi as int))[i],
{
    let ghost whole = words(v@.subrange(lo as int, hi as int));
    let ghost mut found: Seq<Seq<char>> = Seq::empty();
    let mut r: Vec<(usize, usize)> = Vec::new();
    let mut i = lo;
    while i < hi
        invariant
            lo <= i <= hi <= v.len(),
            whole == words(v@.subrange(lo as int, hi as int)),
            whole == found + words(v@.subrange(i as int, hi as int)),
            r@.len() == found.len(),
            forall|k: int|
                0 <= k < r@.len() ==> lo <= (#[trigger] r@[k]).0 <= r@[k].1 <= hi
                    && v@.subrange(r@[k].0 as int, r@[k].1 as int) == found[k],
        decreases hi - i,
    {
        let ghost rest = v@.subrange(i as int, hi as int);
        if is_whitespace(v[i]) {
            assert(rest[0] == v@[i as int]);
            assert(rest.drop_first() =~= v@.subrange(i + 1, hi as int));
            i = i + 1;
        } else {
            let mut j = i + 1;
            while j < hi && !is_whitespace(v[j])
                invariant
                    i < j <= hi <= v.len(),
                    forall|k: int| i <= k < j ==> !is_ws(#[trigger] v@[k]),
                decreases hi - j,
            {
                j = j + 1;
            }
            proof {
                assert(rest[0] == v@[i as int]);
                assert forall|k: int| 1 <= k < j - i implies !is_ws(#[trigger] rest[k]) by {
                    assert(rest[k] == v@[i + k]);
                }
                if j < hi {
                    assert(rest[j - i] == v@[j as int]);
                }
                lemma_word_end_is(rest, 1, j - i);
                assert(rest.take(j - i) =~= v@.subrange(i as int, j as int));
                assert(rest.skip(j - i) =~= v@.subrange(j as int, hi as int));
                assert(words(rest) == seq![v@.subrange(i as int, j as int)] + words(
                    v@.subrange(j as int, hi as int),
                ));
                found = found.push(v@.subrange(i as int, j as int));
                assert(whole =~= found + words(v@.subrange(j as int, hi as int)));
            }
            r.push((i, j));
            i = j;
        }
    }
    proof {
        assert(v@.subrange(i as int, hi as int).len() == 0);
        assert(found + Seq::<Seq<char>>::empty() =~= found);
    }
    r
}

/// Where `v@.subrange(lo, hi)` splits at its first `c` (`split_once`):
/// the index of that `c` in `v`, or `None` when there is none.
pub fn split_once_at(v: &Vec<char>, lo: usize, hi: usize, c: char) -> (r: Option<usize>)
    requires
        lo <= hi <= v.len(),
    ensures
        match r {
            Some(k) => lo <= k < hi && split_once(v@.subrange(lo as int, hi as int), c) == Some(
                (v@.subrange(lo as int, k as int), v@.subrange(k + 1, hi as int)),
            ),
            None => split_once(v@.subrange(lo as int, hi as int), c) is None,
        },
{
    let ghost sub = v@.subrange(lo as int, hi as int);
    let mut k = lo;
    while k < hi && v[k] != c
        invariant
            lo <= k <= hi <= v.len(),
            forall|j: int| lo <= j < k ==> #[trigger] v@[j] != c,
        decreases hi - k,
    {
        k = k + 1;
    }
    proof {
        assert forall|j: int| 0 <= j < k - lo implies #[trigger] sub[j] != c by {
            assert(sub[j] == v@[lo + j]);
        }
        if k < hi {
            assert(sub[k - lo] == v@[k as int]);
        }
        lemma_find_char_is(sub, c, 0, k - lo);
    }
    if k < hi {
        assert(sub.take(k - lo) =~= v@.subrange(lo as int, k as int));
        assert(sub.skip(k - lo + 1) =~= v@.subrange(k + 1, hi as int));
        Some(k)
    } else {
        None
    }
}

/// Parses the characters `lo..hi` of `v` as a `u8`, as `str::parse::<u8>` does.
pub fn parse_u8_range(v: &Vec<char>, lo: usize, hi: usize) -> (r: Option<u8>)
    requires
        lo <= hi <= v.len(),
    ensures
        r matches Some(n) ==> parse_unsigned(v@.subrange(lo as int, hi as int), u8::MAX as nat)
            == Some(n as nat),
        r is None ==> parse_unsigned(v@.subrange(lo as int, hi as int), u8::MAX as nat) is None,
{
    match parse_u64_range(v, lo, hi) {
        Some(n) => {
            if n <= 255 {
                Some(n as u8)
            } else {
                None
            }
        },
        None => None,
    }
}

/// The bounds of `v@.subrange(lo, hi)` once whitespace is trimmed from both ends.
pub fn trim_bounds(v: &Vec<char>, lo: usize, hi: usize) -> (r: (usize, usize))
    requires
        lo <= hi <= v.len(),
    ensures
        lo <= r.0 <= r.1 <= hi,
        v@.subrange(r.0 as int, r.1 as int) == trim(v@.subrange(lo as int, hi as int)),
{
    let ghost s = v@.subrange(lo as int, hi as int);
    let mut a = lo;
    while a < hi && is_whitespace(v[a])
        invariant
            lo <= a <= hi <= v.len(),
            forall|k: int| lo <= k < a ==> is_ws(v@[k]),
        decreases hi - a,
    {
        a = a + 1;
    }
    proof {
        assert forall|k: int| 0 <= k < a - lo implies is_ws(#[trigger] s[k]) by {
            assert(s[k] == v@[lo + k]);
        }
        lemma_trim_start_skip(s, a - lo);
        assert(s.skip(a - lo) =~= v@.subrange(a as int, hi as int));
        let t = v@.subrange(a as int, hi as int);
        if a < hi {
            assert(t[0] == v@[a as int]);
            assert(trim_start(t) == t);
        } else {
            assert(trim_start(t) == t);
        }
    }
    let mut b = hi;
    while b > a && is_whitespace(v[b - 1])
        invariant
            lo <= a <= b <= hi <= v.len(),
            forall|k: int| b <= k < hi ==> is_ws(v@[k]),
        decreases b,
    {
        b = b - 1;
    }
    proof {
        let t = v@.subrange(a as int, hi as int);
        assert forall|k: int| b - a <= k < t.len() implies is_ws(#[trigger] t[k]) by {
            assert(t[k] == v@[a + k]);
        }
        lemma_trim_end_take(t, b - a);
        assert(t.take(b - a) =~= v@.subrange(a as int, b as int));
        let u = v@.subrange(a as int, b as int);
        if b > a {
            assert(u.last() == v@[b - 1]);
        }
        assert(trim_end(u) == u);
    }
    (a, b)
}

/// Parses the characters `lo..hi` of `v` as a `u64`, as `str::parse::<u64>` does.
pub fn parse_u64_range(v: &Vec<char>, lo: usize, hi: usize) -> (r: Option<u64>)
    requires
        lo <= hi <= v.len(),
    ensures
        r matches Some(n) ==> parse_unsigned(v@.subrange(lo as int, hi as int), u64::MAX as nat)
            == Some(n as nat),
        r is None ==> parse_unsigned(v@.subrange(lo as int, hi as int), u64::MAX as nat) is None,
{
    let ghost s = v@.subrange(lo as int, hi as int);
    let mut start = lo;
    if start < hi && v[start] == '+' {
        start = start + 1;
    }
    let ghost d = v@.subrange(start as int, hi as int);
    assert(unsigned_body(s) =~= d);
    if start == hi {
        return None;
    }
    let mut acc: u64 = 0;
    let mut i = start;
    while i < hi
        invariant
            lo <= start <= i <= hi <= v.len(),
            d == v@.subrange(start as int, hi as int),
            s == v@.subrange(lo as int, hi as int),
            unsigned_body(s) == d,
            all_digits(d.take(i - start)),
            acc as nat == digits_value(d.take(i - start)),
        decreases hi - i,
    {
        let c = v[i];
        assert(d[i - start] == c);
        if !('0' <= c && c <= '9') {
            assert(!is_digit(d[i - start]));
            assert(!all_digits(d));
            assert(parse_unsigned(s, u64::MAX as nat) is None);
            return None;
        }
        let dv = (c as u64) - ('0' as u64);
        proof {
            let t = d.take(i + 1 - start);
            assert(t.drop_last() =~= d.take(i - start));
            assert(t.last() == c);
            assert(digits_value(t) == digits_value(d.take(i - start)) * 10 + dv);
        }
        if acc > (u64::MAX - dv) / 10 {
            proof {
                assert(acc * 10 + dv > u64::MAX) by (nonlinear_arith)
                    requires
                        acc > (u64::MAX - dv) / 10,
                        dv <= 9,
                ;
                assert(digits_value(d.take(i + 1 - start)) > u64::MAX);
                lemma_digits_value_take_mono(d, i + 1 - start, d.len() as int);
                assert(d.take(d.len() as int) =~= d);
                assert(digits_value(d) > u64::MAX);
                assert(parse_unsigned(s, u64::MAX as nat) is None);
            }
            return None;
        }
        acc = acc * 10 + dv;
        i = i + 1;
    }
    assert(d.take(i - start) =~= d);
    Some(acc)
}

/// Parses the characters `lo..hi` of `v` as a `usize`, as `str::parse::<usize>` does.
pub fn parse_usize_range(v: &Vec<char>, lo: usize, hi: usize) -> (r: Option<usize>)
    requires
        lo <= hi <= v.len(),
    ensures
        r matches Some(n) ==> parse_unsigned(v@.subrange(lo as int, hi as int), usize::MAX as nat)
            == Some(n as nat),
        r is None ==> parse_unsigned(v@.subrange(lo as int, hi as int), usize::MAX as nat) is None,
{
    match parse_u64_range(v, lo, hi) {
        Some(n) => {
            if n as u128 <= usize::MAX as u128 {
                Some(n as usize)
            } else {
                None
            }
        },
        None => {
            proof {
                let s = v@.subrange(lo as int, hi as int);
                let d = unsigned_body(s);
                if d.len() > 0 && all_digits(d) && digits_value(d) <= usize::MAX as nat {
                    assert(usize::MAX as nat <= u64::MAX as nat);
                }
            }
            None
        },
    }
}

/// `s` cut or padded with spaces to exactly `cols` characters.
pub fn fit_line(s: &str, cols: usize) -> (r: String)
    ensures
        r@ == fit_text(s@, cols as nat),
{
    let v = chars_of(s);
    if v.len() >= cols {
        string_of_range(&v, 0, cols)
    } else {
        let mut r = string_of(&v);
        push_repeat(&mut r, ' ', cols - v.len());
        r
    }
}

/// `s` cut or padded with spaces to `cols` characters (unchanged when `cols` is 0).
pub fn pad_visible_string(s: &Vec<char>, cols: usize) -> (r: String)
    ensures
        r@ == pad_visible(s@, cols as nat),
{
    if cols == 0 {
        string_of(s)
    } else if s.len() >= cols {
        string_of_range(s, 0, cols)
    } else {
        let mut r = string_of(s);
        push_repeat(&mut r, ' ', cols - s.len());
        r
    }
}

/// Lexicographic order on texts by code point, the order in which Rust
/// compares `String`s (UTF-8 keeps the order of code points).
pub open spec fn chars_less(a: Seq<char>, b: Seq<char>) -> bool
    decreases a.len(),
{
    if a.len() == 0 {
        b.len() > 0
    } else if b.len() == 0 {
        false
    } else if a[0] != b[0] {
        (a[0] as u32) < (b[0] as u32)
    } else {
        chars_less(a.drop_first(), b.drop_first())
    }
}

/// Whether `a` comes strictly before `b` in the order of `chars_less`.
pub fn str_less(a: &str, b: &str) -> (r: bool)
    ensures
        r == chars_less(a@, b@),
{
    let va = chars_of(a);
    let vb = chars_of(b);
    assert(a@.skip(0) =~= a@);
    assert(b@.skip(0) =~= b@);
    let mut i: usize = 0;
    while i < va.len() && i < vb.len()
        invariant
            va@ == a@,
            vb@ == b@,
            i <= va@.len(),
            i <= vb@.len(),
            chars_less(a@, b@) == chars_less(a@.skip(i as int), b@.skip(i as int)),
        decreases va@.len() - i,
    {
        if va[i] != vb[i] {
            return (va[i] as u32) < (vb[i] as u32);
        }
        assert(a@.skip(i as int).drop_first() =~= a@.skip(i + 1));
        assert(b@.skip(i as int).drop_first() =~= b@.skip(i + 1));
        i = i + 1;
    }
    i < vb.len() && i == va.len()
}

/// Appends the characters of `t` to `s`.
pub fn append_str(s: &mut String, t: &str)
    ensures
        final(s)@ == old(s)@ + t@,
{
    let v = chars_of(t);
    push_chars(s, &v);
}

/// The decimal text of a number is a non-empty string of digits that reads
/// back as the number.
pub proof fn lemma_decimal_reads_back(n: nat)
    ensures
        decimal(n).len() > 0,
        all_digits(decimal(n)),
        digits_value(decimal(n)) == n,
    decreases n,
{
    if n >= 10 {
        lemma_decimal_reads_back(n / 10);
        let d = decimal(n);
        assert(d.drop_last() =~= decimal(n / 10));
        assert(digit_value(digit_char(n % 10)) == n % 10);
        assert(d.last() == digit_char(n % 10));
        assert(n == (n / 10) * 10 + n % 10);
        assert(digits_value(d) == digits_value(d.drop_last()) * 10 + digit_value(d.last()));
        assert forall|i: int| 0 <= i < d.len() implies is_digit(#[trigger] d[i]) by {
            if i < d.len() - 1 {
                assert(d[i] == decimal(n / 10)[i]);
            }
        }
    } else {
        let d = decimal(n);
        assert(digit_value(digit_char(n)) == n);
        assert(d.drop_last() =~= Seq::<char>::empty());
        assert(digits_value(Seq::<char>::empty()) == 0);
        assert(digits_value(d) == digits_value(d.drop_last()) * 10 + digit_value(d.last()));
    }
}

/// No text comes before itself.
pub proof fn lemma_chars_less_irreflexive(a: Seq<char>)
    ensures
        !chars_less(a, a),
    decreases a.len(),
{
    if a.len() > 0 {
        lemma_chars_less_irreflexive(a.drop_first());
    }
}

/// Of two different texts, one comes before the other, and not both ways.
pub proof fn lemma_chars_less_total(a: Seq<char>, b: Seq<char>)
    ensures
        !(chars_less(a, b) && chars_less(b, a)),
        a != b ==> chars_less(a, b) || chars_less(b, a),
    decreases a.len(),
{
    if a.len() == 0 {
        if b.len() == 0 {
            assert(a =~= b);
        }
    } else if b.len() == 0 {
    } else if a[0] != b[0] {
        vstd::utf8::char_u32_cast(a[0], a[0] as u32);
        vstd::utf8::char_u32_cast(b[0], b[0] as u32);
    } else {
        lemma_chars_less_total(a.drop_first(), b.drop_first());
        if a.drop_first() == b.drop_first() {
            assert(a =~= seq![a[0]] + a.drop_first());
            assert(b =~= seq![b[0]] + b.drop_first());
        }
    }
}

/// The order of texts is transitive.
pub proof fn lemma_chars_less_trans(a: Seq<char>, b: Seq<char>, c: Seq<char>)
    requires
        chars_less(a, b),
        chars_less(b, c),
    ensures
        chars_less(a, c),
    decreases a.len(),
{
    if a.len() > 0 && b.len() > 0 && c.len() > 0 && a[0] == b[0] && b[0] == c[0] {
        lemma_chars_less_trans(a.drop_first(), b.drop_first(), c.drop_first());
    }
}

/// "Not after" is transitive.
pub proof fn lemma_chars_le_trans(a: Seq<char>, b: Seq<char>, c: Seq<char>)
    requires
        !chars_less(b, a),
        !chars_less(c, b),
    ensures
        !chars_less(c, a),
{
    lemma_chars_less_total(a, b);
    if chars_less(c, a) {
        if a == b {
        } else {
            lemma_chars_less_trans(c, a, b);
        }
    }
}

} // verus!
