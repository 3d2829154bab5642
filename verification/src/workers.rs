//! Reading the output of `git status --porcelain=v1 -b` into the git widget's
//! state. Running the command is the host's business.
use vstd::prelude::*;
use crate::state::GitStatus;
use crate::text::{find, find_char, lines, parse_unsigned, rfind_char, split_on, trim};

verus! {

/// The context value that marks a command result as a git status.
pub fn ctx_type_git() -> (r: &'static str)
    ensures
        r@ == "git_status"@,
{
    "git_status"
}

/// Timer ticks between two git status requests.
pub const GIT_POLL_INTERVAL: u64 = 30;

/// The plain values of a `GitStatus`.
pub struct GitView {
    pub branch: Seq<char>,
    pub dirty: nat,
    pub staged: nat,
    pub ahead: nat,
    pub behind: nat,
}

impl View for GitStatus {
    type V = GitView;

    open spec fn view(&self) -> GitView {
        GitView {
            branch: self.branch@,
            dirty: self.dirty as nat,
            staged: self.staged as nat,
            ahead: self.ahead as nat,
            behind: self.behind as nat,
        }
    }
}

/// `s` begins with `p`.
pub open spec fn starts_with(s: Seq<char>, p: Seq<char>) -> bool {
    s.len() >= p.len() && s.take(p.len() as int) == p
}

/// The effect of one comma-separated part of `[ahead 3, behind 1]` on the
/// (ahead, behind) pair: a part `ahead N` or `behind N`, once trimmed, with
/// `N` a `usize`, sets that count.
pub open spec fn apply_track_part(acc: (nat, nat), part: Seq<char>) -> (nat, nat) {
    let p = trim(part);
    let a = if starts_with(p, "ahead "@) {
        match parse_unsigned(p.skip(6), usize::MAX as nat) {
            Some(n) => n,
            None => acc.0,
        }
    } else {
        acc.0
    };
    let b = if starts_with(p, "behind "@) {
        match parse_unsigned(p.skip(7), usize::MAX as nat) {
            Some(n) => n,
            None => acc.1,
        }
    } else {
        acc.1
    };
    (a, b)
}

/// The parts applied in order.
pub open spec fn track_counts(parts: Seq<Seq<char>>) -> (nat, nat)
    decreases parts.len(),
{
    if parts.len() == 0 {
        (0, 0)
    } else {
        apply_track_part(track_counts(parts.drop_last()), parts.last())
    }
}

/// The behind count that a part of the bracket gives, if it gives one: the
/// part, trimmed, is `behind N` with `N` a `usize`.
pub open spec fn part_behind(part: Seq<char>) -> Option<nat> {
    let p = trim(part);
    if starts_with(p, "behind "@) {
        parse_unsigned(p.skip(7), usize::MAX as nat)
    } else {
        None
    }
}

/// The ahead count that a part of the bracket gives, if it gives one: the
/// part, trimmed, is `ahead N` with `N` a `usize`.
pub open spec fn part_ahead(part: Seq<char>) -> Option<nat> {
    let p = trim(part);
    if starts_with(p, "ahead "@) {
        parse_unsigned(p.skip(6), usize::MAX as nat)
    } else {
        None
    }
}

/// Each count is the one that the last part giving it gives, wherever that
/// part stands, first included; a count that no part gives is zero.
pub proof fn lemma_track_counts_last_part_wins(parts: Seq<Seq<char>>)
    ensures
        forall|i: int|
            0 <= i < parts.len() && #[trigger] part_behind(parts[i]) is Some && (forall|j: int|
                i < j < parts.len() ==> part_behind(parts[j]) is None) ==> track_counts(parts).1
                == part_behind(parts[i])->0,
        (forall|j: int| 0 <= j < parts.len() ==> part_behind(#[trigger] parts[j]) is None)
            ==> track_counts(parts).1 == 0,
        forall|i: int|
            0 <= i < parts.len() && #[trigger] part_ahead(parts[i]) is Some && (forall|j: int|
                i < j < parts.len() ==> part_ahead(parts[j]) is None) ==> track_counts(parts).0
                == part_ahead(parts[i])->0,
        (forall|j: int| 0 <= j < parts.len() ==> part_ahead(#[trigger] parts[j]) is None)
            ==> track_counts(parts).0 == 0,
    decreases parts.len(),
{
    if parts.len() > 0 {
        let init = parts.drop_last();
        let last = parts.last();
        lemma_track_counts_last_part_wins(init);
        let n = parts.len() - 1;
        assert(track_counts(parts) == apply_track_part(track_counts(init), last));
        assert(apply_track_part(track_counts(init), last).1 == match part_behind(last) {
            Some(b) => b,
            None => track_counts(init).1,
        });
        assert(apply_track_part(track_counts(init), last).0 == match part_ahead(last) {
            Some(a) => a,
            None => track_counts(init).0,
        });
        assert forall|i: int|
            0 <= i < parts.len() && #[trigger] part_behind(parts[i]) is Some && (forall|j: int|
                i < j < parts.len() ==> part_behind(parts[j]) is None) implies track_counts(parts).1
                == part_behind(parts[i])->0 by {
            if i < n {
                assert(part_behind(parts[n]) is None);
                assert(init[i] == parts[i]);
                assert forall|j: int| i < j < init.len() implies part_behind(init[j]) is None by {
                    assert(init[j] == parts[j]);
                }
            }
        }
        assert forall|i: int|
            0 <= i < parts.len() && #[trigger] part_ahead(parts[i]) is Some && (forall|j: int|
                i < j < parts.len() ==> part_ahead(parts[j]) is None) implies track_counts(parts).0
                == part_ahead(parts[i])->0 by {
            if i < n {
                assert(part_ahead(parts[n]) is None);
                assert(init[i] == parts[i]);
                assert forall|j: int| i < j < init.len() implies part_ahead(init[j]) is None by {
                    assert(init[j] == parts[j]);
                }
            }
        }
        if forall|j: int| 0 <= j < parts.len() ==> part_behind(#[trigger] parts[j]) is None {
            assert(part_behind(parts[n]) is None);
            assert forall|j: int| 0 <= j < init.len() implies part_behind(#[trigger] init[j]) is None by {
                assert(init[j] == parts[j]);
            }
        }
        if forall|j: int| 0 <= j < parts.len() ==> part_ahead(#[trigger] parts[j]) is None {
            assert(part_ahead(parts[n]) is None);
            assert forall|j: int| 0 <= j < init.len() implies part_ahead(#[trigger] init[j]) is None by {
                assert(init[j] == parts[j]);
            }
        }
    }
}

/// Where the bracket part of a header ends: at the last `]`, or at the end.
pub open spec fn bracket_end(rest: Seq<char>) -> int {
    match rfind_char(rest, ']') {
        Some(j) => j,
        None => rest.len() as int,
    }
}

/// The header `## branch...upstream [ahead A, behind B]`, read after its
/// `## `: the branch up to `...` (or the whole text), and the counts from the
/// first `[` to the last `]`.
pub open spec fn header_of(rest: Seq<char>) -> (Seq<char>, nat, nat) {
    let branch = match find(rest, "..."@) {
        Some(e) => rest.take(e),
        None => rest,
    };
    match find_char(rest, '[') {
        None => (branch, 0, 0),
        Some(bs) => {
            let c = track_counts(split_on(rest.subrange(bs + 1, bracket_end(rest)), ','));
            (branch, c.0, c.1)
        },
    }
}

/// Reading the header slices backwards: its last `]` comes before its first `[`.
pub open spec fn header_slices_backwards(rest: Seq<char>) -> bool {
    match find_char(rest, '[') {
        None => false,
        Some(bs) => bracket_end(rest) < bs + 1,
    }
}

/// A file line counts only when it has at least two characters; `??` is an
/// untracked (dirty) file, otherwise a non-blank first column is staged and
/// a non-blank second column is dirty.
pub open spec fn staged_of(line: Seq<char>) -> nat {
    if line.len() >= 2 && !(line[0] == '?' && line[1] == '?') && line[0] != ' ' {
        1
    } else {
        0
    }
}

/// See `staged_of`.
pub open spec fn dirty_of(line: Seq<char>) -> nat {
    if line.len() < 2 {
        0
    } else if line[0] == '?' && line[1] == '?' {
        1
    } else if line[1] != ' ' {
        1
    } else {
        0
    }
}

/// The staged files among `ls`.
pub open spec fn staged_total(ls: Seq<Seq<char>>) -> nat
    decreases ls.len(),
{
    if ls.len() == 0 {
        0
    } else {
        staged_total(ls.drop_last()) + staged_of(ls.last())
    }
}

/// The dirty files among `ls`.
pub open spec fn dirty_total(ls: Seq<Seq<char>>) -> nat
    decreases ls.len(),
{
    if ls.len() == 0 {
        0
    } else {
        dirty_total(ls.drop_last()) + dirty_of(ls.last())
    }
}

/// The git widget's state read from `git status --porcelain=v1 -b`: the
/// header on the first line (when it starts with `## `), then one file per
/// line.
pub open spec fn git_status_of(output: Seq<char>) -> GitView {
    let ls = lines(output);
    let files = if ls.len() > 0 {
        ls.skip(1)
    } else {
        ls
    };
    let h = if ls.len() > 0 && starts_with(ls[0], "## "@) {
        header_of(ls[0].skip(3))
    } else {
        (Seq::empty(), 0, 0)
    };
    GitView {
        branch: h.0,
        dirty: dirty_total(files),
        staged: staged_total(files),
        ahead: h.1,
        behind: h.2,
    }
}

/// The inputs on which reading panics: a header whose slices run backwards,
/// or a file line of one non-ASCII character (two bytes or more, but no
/// second character to read).
pub open spec fn git_output_panics(output: Seq<char>) -> bool {
    let ls = lines(output);
    ||| (ls.len() > 0 && starts_with(ls[0], "## "@) && header_slices_backwards(ls[0].skip(3)))
    ||| exists|i: int| 1 <= i < ls.len() && (#[trigger] ls[i]).len() == 1 && ls[i][0] as u32 >= 0x80
}

/// Whether `v[lo..hi]` begins with `p`.
fn starts_with_at(v: &Vec<char>, lo: usize, hi: usize, p: &Vec<char>) -> (r: bool)
    requires
        lo <= hi <= v.len(),
    ensures
        r == starts_with(v@.subrange(lo as int, hi as int), p@),
{
    if p.len() > hi - lo {
        return false;
    }
    let r = crate::text::occurs_at_in(v, p, lo);
    assert(v@.subrange(lo as int, hi as int).take(p@.len() as int) =~= v@.subrange(
        lo as int,
        lo + p@.len(),
    ));
    r
}

/// Reads the counts of the bracket part `v[lo..hi]`.
fn track_counts_in(v: &Vec<char>, lo: usize, hi: usize) -> (r: (usize, usize))
    requires
        lo <= hi <= v.len(),
    ensures
        r.0 as nat == track_counts(split_on(v@.subrange(lo as int, hi as int), ',')).0,
        r.1 as nat == track_counts(split_on(v@.subrange(lo as int, hi as int), ',')).1,
{
    let inside = crate::text::vec_range(v, lo, hi);
    let parts = crate::text::split_ranges(&inside, ',');
    let ghost ps = split_on(inside@, ',');
    let ahead_w = crate::text::chars_of("ahead ");
    let behind_w = crate::text::chars_of("behind ");
    proof {
        reveal_strlit("ahead ");
        reveal_strlit("behind ");
    }
    let mut ahead: usize = 0;
    let mut behind: usize = 0;
    let mut i: usize = 0;
    assert(ps.take(0) =~= Seq::<Seq<char>>::empty());
    while i < parts.len()
        invariant
            ps == split_on(inside@, ','),
            parts@.len() == ps.len(),
            forall|j: int|
                0 <= j < parts@.len() ==> (#[trigger] parts@[j]).0 <= parts@[j].1 <= inside@.len()
                    && inside@.subrange(parts@[j].0 as int, parts@[j].1 as int) == ps[j],
            ahead_w@ == "ahead "@,
            behind_w@ == "behind "@,
            ahead_w@.len() == 6,
            behind_w@.len() == 7,
            i <= parts@.len(),
            (ahead as nat, behind as nat) == track_counts(ps.take(i as int)),
        decreases parts@.len() - i,
    {
        let (a, b) = parts[i];
        let (tlo, thi) = crate::text::trim_bounds(&inside, a, b);
        let ghost p = inside@.subrange(tlo as int, thi as int);
        assert(ps.take(i + 1).drop_last() =~= ps.take(i as int));
        assert(ps.take(i + 1).last() == ps[i as int]);
        if starts_with_at(&inside, tlo, thi, &ahead_w) {
            assert(inside@.subrange(tlo + 6, thi as int) =~= p.skip(6));
            match crate::text::parse_usize_range(&inside, tlo + 6, thi) {
                Some(n) => {
                    ahead = n;
                },
                None => {},
            }
        }
        if starts_with_at(&inside, tlo, thi, &behind_w) {
            assert(inside@.subrange(tlo + 7, thi as int) =~= p.skip(7));
            match crate::text::parse_usize_range(&inside, tlo + 7, thi) {
                Some(n) => {
                    behind = n;
                },
                None => {},
            }
        }
        i = i + 1;
    }
    assert(ps.take(parts@.len() as int) =~= ps);
    (ahead, behind)
}

/// Reads a header `v[lo..hi]` that follows its `## `.
fn parse_header(v: &Vec<char>, lo: usize, hi: usize) -> (r: (String, usize, usize))
    requires
        lo <= hi <= v.len(),
        !header_slices_backwards(v@.subrange(lo as int, hi as int)),
    ensures
        r.0@ == header_of(v@.subrange(lo as int, hi as int)).0,
        r.1 as nat == header_of(v@.subrange(lo as int, hi as int)).1,
        r.2 as nat == header_of(v@.subrange(lo as int, hi as int)).2,
{
    let ghost rest = v@.subrange(lo as int, hi as int);
    let dots = crate::text::chars_of("...");
    proof {
        reveal_strlit("...");
    }
    let branch_end = match crate::text::find_in(&v, &dots, lo) {
        Some(e) if e <= hi && hi - e >= 3 => e,
        _ => hi,
    };
    proof {
        lemma_find_in_piece(v@, dots@, lo as int, hi as int, 0);
        crate::text::lemma_find_from_bounds(v@, dots@, lo as int);
        match find(rest, "..."@) {
            Some(e) => {
                assert(rest.take(e) =~= v@.subrange(lo as int, branch_end as int));
            },
            None => {
                assert(rest =~= v@.subrange(lo as int, branch_end as int));
            },
        }
    }
    let branch = crate::text::string_of_range(&v, lo, branch_end);
    proof {
        crate::text::lemma_find_char_from_bounds(v@, '[', lo as int);
        lemma_find_char_in_piece(v@, '[', lo as int, hi as int, 0);
    }
    match crate::text::find_char_in(&v, '[', lo) {
        Some(bs) if bs < hi => {
            let be = match crate::text::rfind_char_in(&v, ']', hi) {
                Some(j) if j >= lo => j,
                _ => hi,
            };
            proof {
                crate::text::lemma_rfind_char_before_bounds(v@, ']', hi as int);
                lemma_rfind_char_in_piece(v@, ']', lo as int, hi as int);
                assert(find_char(rest, '[') == Some(bs - lo));
                assert(bracket_end(rest) == be - lo);
                assert(v@.subrange(bs + 1, be as int) =~= rest.subrange(
                    bs - lo + 1,
                    bracket_end(rest),
                ));
            }
            let (a, b) = track_counts_in(&v, bs + 1, be);
            (branch, a, b)
        },
        _ => (branch, 0, 0),
    }
}

/// Reads the output of `git status --porcelain=v1 -b`.
pub fn parse_git_status(output: &str) -> (status: GitStatus)
    requires
        !git_output_panics(output@),
    ensures
        status@ == git_status_of(output@),
{
    let v = crate::text::chars_of(output);
    let ls = crate::text::line_ranges(&v);
    let ghost lv = lines(v@);
    let mut status = GitStatus::default();
    let ghost h: (Seq<char>, nat, nat) = (Seq::empty(), 0, 0);
    if ls.len() > 0 {
        let (lo, hi) = ls[0];
        let hash = crate::text::chars_of("## ");
        proof {
            reveal_strlit("## ");
        }
        if starts_with_at(&v, lo, hi, &hash) {
            assert(lv[0].skip(3) =~= v@.subrange(lo + 3, hi as int));
            let (branch, a, b) = parse_header(&v, lo + 3, hi);
            status.branch = branch;
            status.ahead = a;
            status.behind = b;
            proof {
                h = header_of(lv[0].skip(3));
            }
        }
    }
    assert(status.branch@ == h.0 && status.ahead as nat == h.1 && status.behind as nat == h.2);
    assert(h == (if lv.len() > 0 && starts_with(lv[0], "## "@) {
        header_of(lv[0].skip(3))
    } else {
        (Seq::<char>::empty(), 0nat, 0nat)
    }));
    let mut i: usize = 1;
    let ghost files = if lv.len() > 0 {
        lv.skip(1)
    } else {
        lv
    };
    assert(files.take(0) =~= Seq::<Seq<char>>::empty());
    while i < ls.len()
        invariant
            1 <= i,
            ls@.len() == lv.len(),
            lv == lines(v@),
            v@ == output@,
            forall|j: int|
                0 <= j < ls@.len() ==> (#[trigger] ls@[j]).0 <= ls@[j].1 <= v@.len()
                    && v@.subrange(ls@[j].0 as int, ls@[j].1 as int) == lv[j],
            !git_output_panics(output@),
            i <= ls@.len() || (ls@.len() == 0 && i == 1),
            files == (if lv.len() > 0 {
                lv.skip(1)
            } else {
                lv
            }),
            status.dirty as nat == dirty_total(files.take(i - 1)),
            status.staged as nat == staged_total(files.take(i - 1)),
            status.dirty <= i,
            status.staged <= i,
            status.branch@ == h.0,
            status.ahead as nat == h.1,
            status.behind as nat == h.2,
        decreases ls@.len() - i,
    {
        let (lo, hi) = ls[i];
        let ghost line = lv[i as int];
        assert(files[i - 1] == line);
        assert(files.take(i as int).drop_last() =~= files.take(i - 1));
        assert(files.take(i as int).last() == line);
        if hi - lo >= 2 {
            let x = v[lo];
            let y = v[lo + 1];
            assert(line[0] == x && line[1] == y);
            if x == '?' && y == '?' {
                status.dirty = status.dirty + 1;
            } else {
                if x != ' ' {
                    status.staged = status.staged + 1;
                }
                if y != ' ' {
                    status.dirty = status.dirty + 1;
                }
            }
        } else {
            proof {
                if hi - lo == 1 {
                    assert(line.len() == 1);
                    assert(!(1 <= i < lv.len() && lv[i as int].len() == 1 && (lv[i as int][0] as u32)
                        >= 0x80));
                }
            }
        }
        i = i + 1;
    }
    proof {
        if lv.len() > 0 {
            assert(files.take(lv.len() - 1) =~= files);
        } else {
            assert(files.take(0) =~= files);
        }
        assert(files.take(i - 1) =~= files);
    }
    status
}

/// Searching a piece `s[lo..hi]` for `p` agrees with searching `s` from `lo`,
/// when the occurrence ends by `hi`.
proof fn lemma_find_in_piece(s: Seq<char>, p: Seq<char>, lo: int, hi: int, j: int)
    requires
        0 <= lo <= hi <= s.len(),
        0 <= j,
    ensures
        crate::text::find_from(s.subrange(lo, hi), p, j) == (match crate::text::find_from(
            s,
            p,
            lo + j,
        ) {
            Some(k) => if k + p.len() <= hi {
                Some(k - lo)
            } else {
                None
            },
            None => None,
        }),
    decreases hi - lo + 1 - j,
{
    let t = s.subrange(lo, hi);
    crate::text::lemma_find_from_bounds(s, p, lo + j);
    if j + p.len() > t.len() {
    } else {
        assert(crate::text::occurs_at(t, p, j) == crate::text::occurs_at(s, p, lo + j)) by {
            assert(t.subrange(j, j + p.len()) =~= s.subrange(lo + j, lo + j + p.len()));
        }
        if !crate::text::occurs_at(t, p, j) {
            lemma_find_in_piece(s, p, lo, hi, j + 1);
        }
    }
}

/// Searching a piece `s[lo..hi]` for `c` agrees with searching `s` from `lo`.
proof fn lemma_find_char_in_piece(s: Seq<char>, c: char, lo: int, hi: int, j: int)
    requires
        0 <= lo <= hi <= s.len(),
        0 <= j,
    ensures
        crate::text::find_char_from(s.subrange(lo, hi), c, j) == (match crate::text::find_char_from(
            s,
            c,
            lo + j,
        ) {
            Some(k) => if k < hi {
                Some(k - lo)
            } else {
                None
            },
            None => None,
        }),
    decreases hi - lo - j,
{
    crate::text::lemma_find_char_from_bounds(s, c, lo + j);
    if j >= hi - lo {
    } else {
        assert(s.subrange(lo, hi)[j] == s[lo + j]);
        if s[lo + j] != c {
            lemma_find_char_in_piece(s, c, lo, hi, j + 1);
        }
    }
}

/// Searching a piece `s[lo..hi]` backwards for `c` agrees with searching `s`
/// backwards from `hi`, when the occurrence is at or after `lo`.
proof fn lemma_rfind_char_in_piece(s: Seq<char>, c: char, lo: int, hi: int)
    requires
        0 <= lo <= hi <= s.len(),
    ensures
        rfind_char(s.subrange(lo, hi), c) == (match crate::text::rfind_char_before(s, c, hi) {
            Some(k) => if k >= lo {
                Some(k - lo)
            } else {
                None
            },
            None => None,
        }),
{
    lemma_rfind_piece_n(s, c, lo, hi, hi - lo);
}

proof fn lemma_rfind_piece_n(s: Seq<char>, c: char, lo: int, hi: int, n: int)
    requires
        0 <= lo <= hi <= s.len(),
        0 <= n <= hi - lo,
    ensures
        crate::text::rfind_char_before(s.subrange(lo, hi), c, n) == (
        match crate::text::rfind_char_before(s, c, lo + n) {
            Some(k) => if k >= lo {
                Some(k - lo)
            } else {
                None
            },
            None => None,
        }),
    decreases n,
{
    crate::text::lemma_rfind_char_before_bounds(s, c, lo + n);
    if n > 0 {
        assert(s.subrange(lo, hi)[n - 1] == s[lo + n - 1]);
        if s[lo + n - 1] != c {
            lemma_rfind_piece_n(s, c, lo, hi, n - 1);
        }
    } else {
        crate::text::lemma_rfind_char_before_bounds(s, c, lo);
    }
}

} // verus!
