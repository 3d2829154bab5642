//! The git widget: the branch, then the counts of staged, changed, ahead
//! and behind, or a check mark when the tree is clean.
use vstd::prelude::*;
use crate::state::GitStatus;
use crate::text::{append_str, decimal, push_char, push_decimal};
use crate::workers::GitView;

verus! {

/// A count with its sign, or nothing for zero.
pub open spec fn count_part(sign: char, n: nat) -> Seq<Seq<char>> {
    if n > 0 {
        seq![seq![sign] + decimal(n)]
    } else {
        Seq::empty()
    }
}

/// The counts shown: staged `+`, changed `~`, ahead `↑`, behind `↓`.
pub open spec fn git_counts(s: GitView) -> Seq<Seq<char>> {
    count_part('+', s.staged) + count_part('~', s.dirty) + count_part('↑', s.ahead) + count_part('↓', s.behind)
}

/// The parts joined by single spaces.
pub open spec fn join_spaces(ps: Seq<Seq<char>>) -> Seq<char>
    decreases ps.len(),
{
    if ps.len() == 0 {
        Seq::empty()
    } else if ps.len() == 1 {
        ps[0]
    } else {
        join_spaces(ps.drop_last()) + seq![' '] + ps.last()
    }
}

/// The lines of the git widget: none without a status; else the branch,
/// then the counts or `✓ clean`.
pub open spec fn git_lines(status: Option<GitView>) -> Seq<Seq<char>> {
    match status {
        None => Seq::empty(),
        Some(s) => seq![
            seq![' '] + s.branch,
            if git_counts(s).len() == 0 {
                seq![' ', '✓', ' ', 'c', 'l', 'e', 'a', 'n']
            } else {
                seq![' '] + join_spaces(git_counts(s))
            },
        ],
    }
}

/// The view of an optional status.
pub open spec fn git_opt_view(s: Option<GitStatus>) -> Option<GitView> {
    match s {
        Some(g) => Some(g@),
        None => None,
    }
}

fn push_count(line: &mut String, first: &mut bool, sign: char, n: usize, Ghost(parts): Ghost<Seq<Seq<char>>>)
    requires
        *old(first) == (parts.len() == 0),
        old(line)@ == seq![' '] + join_spaces(parts),
    ensures
        *final(first) == ((parts + count_part(sign, n as nat)).len() == 0),
        final(line)@ == seq![' '] + join_spaces(parts + count_part(sign, n as nat)),
{
    if n > 0 {
        let ghost before = line@;
        if !*first {
            push_char(line, ' ');
        }
        push_char(line, sign);
        push_decimal(line, n as u64);
        *first = false;
        proof {
            let np = parts + count_part(sign, n as nat);
            assert(np.drop_last() =~= parts);
            assert(np.last() == seq![sign] + decimal(n as nat));
            if parts.len() == 0 {
                assert(np =~= seq![seq![sign] + decimal(n as nat)]);
                assert(line@ =~= seq![' '] + join_spaces(np));
            } else {
                assert(line@ =~= seq![' '] + join_spaces(np));
            }
        }
    } else {
        assert(parts + count_part(sign, n as nat) =~= parts);
    }
}

/// The lines of the git widget (see `git_lines`).
pub fn render_git(status: &Option<GitStatus>) -> (r: Vec<String>)
    ensures
        r@.map_values(|l: String| l@) == git_lines(git_opt_view(*status)),
{
    let s = match status {
        Some(s) => s,
        None => {
            let r: Vec<String> = Vec::new();
            assert(r@.map_values(|l: String| l@) =~= Seq::<Seq<char>>::empty());
            return r;
        },
    };
    let mut branch_line = String::new();
    push_char(&mut branch_line, ' ');
    append_str(&mut branch_line, s.branch.as_str());
    let mut line = String::new();
    push_char(&mut line, ' ');
    let mut first = true;
    let ghost v = s@;
    assert(line@ =~= seq![' '] + join_spaces(Seq::empty()));
    push_count(&mut line, &mut first, '+', s.staged, Ghost(Seq::empty()));
    let ghost p1 = Seq::<Seq<char>>::empty() + count_part('+', v.staged);
    push_count(&mut line, &mut first, '~', s.dirty, Ghost(p1));
    let ghost p2 = p1 + count_part('~', v.dirty);
    push_count(&mut line, &mut first, '↑', s.ahead, Ghost(p2));
    let ghost p3 = p2 + count_part('↑', v.ahead);
    push_count(&mut line, &mut first, '↓', s.behind, Ghost(p3));
    assert(p3 + count_part('↓', v.behind) =~= git_counts(v));
    let second = if first {
        let mut c = String::new();
        push_char(&mut c, ' ');
        push_char(&mut c, '✓');
        push_char(&mut c, ' ');
        push_char(&mut c, 'c');
        push_char(&mut c, 'l');
        push_char(&mut c, 'e');
        push_char(&mut c, 'a');
        push_char(&mut c, 'n');
        c
    } else {
        line
    };
    assert(first == (git_counts(v).len() == 0));
    assert(branch_line@ =~= seq![' '] + v.branch);
    assert(git_opt_view(*status) == Some(v));
    let ghost lines = git_lines(Some(v));
    assert(second@ =~= lines[1]);
    let mut r: Vec<String> = Vec::new();
    r.push(branch_line);
    r.push(second);
    assert(r@.map_values(|l: String| l@) =~= git_lines(git_opt_view(*status)));
    r
}

} // verus!
