//! The stats widget: CPU, memory and battery figures that an outside tool
//! reports as `cpu=23 mem=4.2/16.0 bat=87`. The CPU and memory figures are
//! decimal fractions, which the host reads and writes; the library picks
//! them out of the report and lays out the line.
use vstd::prelude::*;
use crate::text::{decimal, parse_unsigned, split_once, trim, words};
use crate::widgets::git::join_spaces;

verus! {

/// The fields of a stats report: the fractional figures as the report
/// writes them, the battery level as a number.
pub struct StatsFields {
    pub cpu: Option<String>,
    pub mem_used: Option<String>,
    pub mem_total: Option<String>,
    pub battery_pct: Option<u8>,
}

/// The plain values of a `StatsFields`.
pub struct StatsFieldsView {
    pub cpu: Option<Seq<char>>,
    pub mem_used: Option<Seq<char>>,
    pub mem_total: Option<Seq<char>>,
    pub battery_pct: Option<u8>,
}

/// The view of an optional text.
pub open spec fn opt_text(t: Option<String>) -> Option<Seq<char>> {
    match t {
        Some(s) => Some(s@),
        None => None,
    }
}

impl View for StatsFields {
    type V = StatsFieldsView;

    open spec fn view(&self) -> StatsFieldsView {
        StatsFieldsView {
            cpu: opt_text(self.cpu),
            mem_used: opt_text(self.mem_used),
            mem_total: opt_text(self.mem_total),
            battery_pct: self.battery_pct,
        }
    }
}

/// A report with no fields.
pub open spec fn no_stats() -> StatsFieldsView {
    StatsFieldsView { cpu: None, mem_used: None, mem_total: None, battery_pct: None }
}

/// The effect of one word of the report: `cpu=` sets the CPU figure,
/// `mem=used/total` both memory figures (nothing without the `/`), `bat=`
/// the battery level (`None` where it is no `u8`); other words change
/// nothing.
pub open spec fn stats_apply(f: StatsFieldsView, word: Seq<char>) -> StatsFieldsView {
    match split_once(word, '=') {
        None => f,
        Some((key, val)) => {
            if key == "cpu"@ {
                StatsFieldsView { cpu: Some(val), ..f }
            } else if key == "mem"@ {
                match split_once(val, '/') {
                    Some((used, total)) => StatsFieldsView {
                        mem_used: Some(used),
                        mem_total: Some(total),
                        ..f
                    },
                    None => f,
                }
            } else if key == "bat"@ {
                StatsFieldsView {
                    battery_pct: match parse_unsigned(val, u8::MAX as nat) {
                        Some(n) => Some(n as u8),
                        None => None,
                    },
                    ..f
                }
            } else {
                f
            }
        },
    }
}

/// The words applied in order, the last word for a field winning.
pub open spec fn stats_of(ws: Seq<Seq<char>>) -> StatsFieldsView
    decreases ws.len(),
{
    if ws.len() == 0 {
        no_stats()
    } else {
        stats_apply(stats_of(ws.drop_last()), ws.last())
    }
}

/// Picks the fields out of a stats report: its whitespace-separated words,
/// applied in order (see `stats_apply`).
pub fn stats_fields(output: &str) -> (f: StatsFields)
    ensures
        f@ == stats_of(words(trim(output@))),
{
    let v = crate::text::chars_of(output);
    let (a, b) = crate::text::trim_bounds(&v, 0, v.len());
    assert(v@.subrange(0, v@.len() as int) =~= v@);
    let ranges = crate::text::word_ranges(&v, a, b);
    let ghost ws = words(trim(output@));
    let mut f = StatsFields { cpu: None, mem_used: None, mem_total: None, battery_pct: None };
    let mut i: usize = 0;
    assert(ws.take(0) =~= Seq::<Seq<char>>::empty());
    while i < ranges.len()
        invariant
            v@ == output@,
            a <= b <= v@.len(),
            ws == words(v@.subrange(a as int, b as int)),
            ranges@.len() == ws.len(),
            forall|j: int|
                0 <= j < ranges@.len() ==> a <= (#[trigger] ranges@[j]).0 <= ranges@[j].1 <= b
                    && v@.subrange(ranges@[j].0 as int, ranges@[j].1 as int) == ws[j],
            i <= ranges@.len(),
            f@ == stats_of(ws.take(i as int)),
        decreases ranges@.len() - i,
    {
        let (lo, hi) = ranges[i];
        let ghost word = v@.subrange(lo as int, hi as int);
        assert(word == ws[i as int]);
        assert(ws.take(i + 1).drop_last() =~= ws.take(i as int));
        assert(ws.take(i + 1).last() == word);
        match crate::text::split_once_at(&v, lo, hi, '=') {
            Some(eq) => {
                if crate::text::range_is(&v, lo, eq, "cpu") {
                    f.cpu = Some(crate::text::string_of_range(&v, eq + 1, hi));
                } else if crate::text::range_is(&v, lo, eq, "mem") {
                    match crate::text::split_once_at(&v, eq + 1, hi, '/') {
                        Some(sl) => {
                            f.mem_used = Some(crate::text::string_of_range(&v, eq + 1, sl));
                            f.mem_total = Some(crate::text::string_of_range(&v, sl + 1, hi));
                        },
                        None => {},
                    }
                } else if crate::text::range_is(&v, lo, eq, "bat") {
                    f.battery_pct = crate::text::parse_u8_range(&v, eq + 1, hi);
                }
            },
            None => {},
        }
        i = i + 1;
    }
    assert(ws.take(ranges@.len() as int) =~= ws);
    f
}

/// The parts of the stats line: `CPU:`, `MEM:` and `BAT:` with their
/// figures, each where it is known.
pub open spec fn stat_parts(cpu: Option<Seq<char>>, mem_used: Option<Seq<char>>, battery_pct: Option<u8>) -> Seq<Seq<char>> {
    (match cpu {
        Some(c) => seq!["CPU:"@ + c + "%"@],
        None => Seq::empty(),
    }) + (match mem_used {
        Some(m) => seq!["MEM:"@ + m + "G"@],
        None => Seq::empty(),
    }) + (match battery_pct {
        Some(b) => seq!["BAT:"@ + decimal(b as nat) + "%"@],
        None => Seq::empty(),
    })
}

/// Appends `part` to a line that holds `parts` joined by spaces.
fn push_part(line: &mut String, part: String, first: bool, Ghost(parts): Ghost<Seq<Seq<char>>>)
    requires
        old(line)@ == join_spaces(parts),
        first == (parts.len() == 0),
    ensures
        final(line)@ == join_spaces(parts.push(part@)),
{
    let ghost np = parts.push(part@);
    assert(np.drop_last() =~= parts);
    if first {
        assert(line@ =~= Seq::<char>::empty());
    } else {
        crate::text::push_char(line, ' ');
    }
    crate::text::append_str(line, part.as_str());
    if first {
        assert(line@ =~= np[0]);
    } else {
        assert(line@ =~= join_spaces(np));
    }
}

/// The stats line: the known figures joined by spaces (see `stat_parts`);
/// `cpu` and `mem_used` are the figures as they are to be shown.
pub fn stats_line(cpu: &Option<String>, mem_used: &Option<String>, battery_pct: Option<u8>) -> (r: String)
    ensures
        r@ == join_spaces(stat_parts(opt_text(*cpu), opt_text(*mem_used), battery_pct)),
{
    let mut line = String::new();
    let mut first = true;
    let ghost mut parts: Seq<Seq<char>> = Seq::empty();
    assert(line@ =~= join_spaces(parts));
    match cpu {
        Some(c) => {
            let mut p = String::new();
            crate::text::append_str(&mut p, "CPU:");
            crate::text::append_str(&mut p, c.as_str());
            crate::text::append_str(&mut p, "%");
            push_part(&mut line, p, first, Ghost(parts));
            first = false;
            proof {
                parts = parts.push("CPU:"@ + c@ + "%"@);
            }
        },
        None => {},
    }
    match mem_used {
        Some(m) => {
            let mut p = String::new();
            crate::text::append_str(&mut p, "MEM:");
            crate::text::append_str(&mut p, m.as_str());
            crate::text::append_str(&mut p, "G");
            push_part(&mut line, p, first, Ghost(parts));
            first = false;
            proof {
                parts = parts.push("MEM:"@ + m@ + "G"@);
            }
        },
        None => {},
    }
    match battery_pct {
        Some(b) => {
            let mut p = String::new();
            crate::text::append_str(&mut p, "BAT:");
            crate::text::push_decimal(&mut p, b as u64);
            crate::text::append_str(&mut p, "%");
            push_part(&mut line, p, first, Ghost(parts));
            first = false;
            proof {
                parts = parts.push("BAT:"@ + decimal(b as nat) + "%"@);
            }
        },
        None => {},
    }
    assert(parts =~= stat_parts(opt_text(*cpu), opt_text(*mem_used), battery_pct));
    line
}

} // verus!
