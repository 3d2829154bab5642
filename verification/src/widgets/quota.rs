//! The quota widget: a usage counter that an outside tool sends through the
//! pipe as `remaining=450,limit=1000,resets=2h30m,label=Tokens`.
use vstd::prelude::*;
use crate::text::{decimal, parse_unsigned, split_on, split_once, trim};

verus! {

/// Data received from a quota pipe message.
#[derive(Debug)]
pub struct QuotaData {
    pub remaining: Option<u64>,
    pub limit: Option<u64>,
    pub resets: Option<String>,
    pub label: Option<String>,
}

/// The plain values of a `QuotaData`.
pub struct QuotaView {
    pub remaining: Option<u64>,
    pub limit: Option<u64>,
    pub resets: Option<Seq<char>>,
    pub label: Option<Seq<char>>,
}

impl View for QuotaData {
    type V = QuotaView;

    open spec fn view(&self) -> QuotaView {
        QuotaView {
            remaining: self.remaining,
            limit: self.limit,
            resets: match self.resets {
                Some(s) => Some(s@),
                None => None,
            },
            label: match self.label {
                Some(s) => Some(s@),
                None => None,
            },
        }
    }
}

impl Default for QuotaData {
    fn default() -> (r: Self)
        ensures
            r.remaining is None && r.limit is None && r.resets is None && r.label is None,
    {
        QuotaData { remaining: None, limit: None, resets: None, label: None }
    }
}

/// A number field of the payload: its value, or `None` when it is not a `u64`.
pub open spec fn quota_number(val: Seq<char>) -> Option<u64> {
    match parse_unsigned(trim(val), u64::MAX as nat) {
        Some(n) => Some(n as u64),
        None => None,
    }
}

/// The effect of one `key=value` piece of the payload; a piece without `=`
/// or with another key changes nothing.
pub open spec fn quota_apply(q: QuotaView, piece: Seq<char>) -> QuotaView {
    match split_once(piece, '=') {
        None => q,
        Some((k, v)) => {
            let key = trim(k);
            if key == "remaining"@ {
                QuotaView { remaining: quota_number(v), ..q }
            } else if key == "limit"@ {
                QuotaView { limit: quota_number(v), ..q }
            } else if key == "resets"@ {
                QuotaView { resets: Some(trim(v)), ..q }
            } else if key == "label"@ {
                QuotaView { label: Some(trim(v)), ..q }
            } else {
                q
            }
        },
    }
}

/// The pieces applied in order, the last piece for a key winning.
pub open spec fn quota_of(pieces: Seq<Seq<char>>) -> QuotaView
    decreases pieces.len(),
{
    if pieces.len() == 0 {
        QuotaView { remaining: None, limit: None, resets: None, label: None }
    } else {
        quota_apply(quota_of(pieces.drop_last()), pieces.last())
    }
}

/// Parses a quota payload: comma-separated `key=value` pieces.
pub fn parse_quota_data(data: &str) -> (qd: QuotaData)
    ensures
        qd@ == quota_of(split_on(data@, ',')),
{
    let v = crate::text::chars_of(data);
    let ranges = crate::text::split_ranges(&v, ',');
    let ghost pieces = split_on(data@, ',');
    let remaining_w = crate::text::chars_of("remaining");
    let limit_w = crate::text::chars_of("limit");
    let resets_w = crate::text::chars_of("resets");
    let label_w = crate::text::chars_of("label");
    let mut qd = QuotaData::default();
    let mut i: usize = 0;
    assert(pieces.take(0) =~= Seq::<Seq<char>>::empty());
    while i < ranges.len()
        invariant
            v@ == data@,
            pieces == split_on(data@, ','),
            ranges@.len() == pieces.len(),
            forall|j: int|
                0 <= j < ranges@.len() ==> (#[trigger] ranges@[j]).0 <= ranges@[j].1 <= v@.len()
                    && v@.subrange(ranges@[j].0 as int, ranges@[j].1 as int) == pieces[j],
            remaining_w@ == "remaining"@,
            limit_w@ == "limit"@,
            resets_w@ == "resets"@,
            label_w@ == "label"@,
            i <= ranges@.len(),
            qd@ == quota_of(pieces.take(i as int)),
        decreases ranges@.len() - i,
    {
        let (lo, hi) = ranges[i];
        let ghost piece = v@.subrange(lo as int, hi as int);
        assert(piece == pieces[i as int]);
        assert(pieces.take(i + 1).drop_last() =~= pieces.take(i as int));
        assert(pieces.take(i + 1).last() == piece);
        match crate::text::find_char_in(&v, '=', lo) {
            Some(eq) if eq < hi => {
                proof {
                    crate::text::lemma_find_char_skip(v@, '=', lo as int, 0);
                    crate::text::lemma_find_char_from_bounds(v@, '=', lo as int);
                    lemma_first_in_piece(v@, lo as int, hi as int, eq as int);
                    assert(split_once(piece, '=') == Some(
                        (v@.subrange(lo as int, eq as int), v@.subrange(eq + 1, hi as int)),
                    ));
                }
                let (klo, khi) = crate::text::trim_bounds(&v, lo, eq);
                let key = crate::text::vec_range(&v, klo, khi);
                let (vlo, vhi) = crate::text::trim_bounds(&v, eq + 1, hi);
                if crate::text::chars_eq(&key, &remaining_w) {
                    qd.remaining = crate::text::parse_u64_range(&v, vlo, vhi);
                } else if crate::text::chars_eq(&key, &limit_w) {
                    qd.limit = crate::text::parse_u64_range(&v, vlo, vhi);
                } else if crate::text::chars_eq(&key, &resets_w) {
                    qd.resets = Some(crate::text::string_of_range(&v, vlo, vhi));
                } else if crate::text::chars_eq(&key, &label_w) {
                    qd.label = Some(crate::text::string_of_range(&v, vlo, vhi));
                }
            },
            _ => {
                proof {
                    crate::text::lemma_find_char_skip(v@, '=', lo as int, 0);
                    crate::text::lemma_find_char_from_bounds(v@, '=', lo as int);
                    lemma_none_in_piece(v@, lo as int, hi as int);
                }
            },
        }
        i = i + 1;
    }
    assert(pieces.take(ranges@.len() as int) =~= pieces);
    qd
}

proof fn lemma_first_in_piece(s: Seq<char>, lo: int, hi: int, eq: int)
    requires
        0 <= lo <= eq < hi <= s.len(),
        crate::text::find_char_from(s, '=', lo) == Some(eq),
    ensures
        split_once(s.subrange(lo, hi), '=') == Some((s.subrange(lo, eq), s.subrange(eq + 1, hi))),
{
    let piece = s.subrange(lo, hi);
    crate::text::lemma_find_char_from_bounds(s, '=', lo);
    lemma_find_char_prefix(s, lo, hi, 0);
    assert(piece.take(eq - lo) =~= s.subrange(lo, eq));
    assert(piece.skip(eq - lo + 1) =~= s.subrange(eq + 1, hi));
}

proof fn lemma_none_in_piece(s: Seq<char>, lo: int, hi: int)
    requires
        0 <= lo <= hi <= s.len(),
        match crate::text::find_char_from(s, '=', lo) {
            Some(k) => k >= hi,
            None => true,
        },
    ensures
        split_once(s.subrange(lo, hi), '=') is None,
{
    lemma_find_char_prefix(s, lo, hi, 0);
}

/// Searching a piece `s[lo..hi]` agrees with searching `s` from `lo`, up to `hi`.
proof fn lemma_find_char_prefix(s: Seq<char>, lo: int, hi: int, j: int)
    requires
        0 <= lo <= hi <= s.len(),
        0 <= j,
    ensures
        crate::text::find_char_from(s.subrange(lo, hi), '=', j) == (match crate::text::find_char_from(
            s,
            '=',
            lo + j,
        ) {
            Some(k) => if k < hi {
                Some(k - lo)
            } else {
                None
            },
            None => None,
        }),
    decreases hi - lo - j,
{
    crate::text::lemma_find_char_from_bounds(s, '=', lo + j);
    if j >= hi - lo {
        if lo + j < s.len() {
            crate::text::lemma_find_char_from_bounds(s, '=', lo + j);
        }
    } else {
        assert(s.subrange(lo, hi)[j] == s[lo + j]);
        if s[lo + j] != '=' {
            lemma_find_char_prefix(s, lo, hi, j + 1);
        }
    }
}

/// The quota line: `label: remaining/limit (resets)`, the label defaulting
/// to `Quota` and the part in brackets left out when there is no non-empty
/// reset time; empty when there is no data or a number is missing.
pub open spec fn quota_line(q: Option<QuotaView>) -> Seq<char> {
    match q {
        None => Seq::empty(),
        Some(q) => match (q.remaining, q.limit) {
            (Some(r), Some(l)) => {
                let label = match q.label {
                    Some(s) => s,
                    None => "Quota"@,
                };
                let base = label + ": "@ + decimal(r as nat) + "/"@ + decimal(l as nat);
                match q.resets {
                    Some(t) => if t.len() > 0 {
                        base + " ("@ + t + ")"@
                    } else {
                        base
                    },
                    None => base,
                }
            },
            _ => Seq::empty(),
        },
    }
}

/// The view of an optional quota.
pub open spec fn quota_opt_view(q: Option<QuotaData>) -> Option<QuotaView> {
    match q {
        Some(d) => Some(d@),
        None => None,
    }
}

/// Renders quota data as a compact single line.
pub fn render_quota(quota: &Option<QuotaData>) -> (s: String)
    ensures
        s@ == quota_line(quota_opt_view(*quota)),
{
    let q = match quota {
        Some(q) => q,
        None => return String::new(),
    };
    let (remaining, limit) = match (q.remaining, q.limit) {
        (Some(r), Some(l)) => (r, l),
        _ => return String::new(),
    };
    let mut s = match &q.label {
        Some(l) => l.clone(),
        None => "Quota".to_owned(),
    };
    s.append(": ");
    crate::text::push_decimal(&mut s, remaining);
    s.append("/");
    crate::text::push_decimal(&mut s, limit);
    match &q.resets {
        Some(r) => {
            if r.as_str().unicode_len() > 0 {
                s.append(" (");
                s.append(r.as_str());
                s.append(")");
            }
        },
        None => {},
    }
    s
}

/// A text with no `c` in it is one piece when split at `c`; a piece without
/// `c` followed by `c` is split off first.
proof fn lemma_split_on_pieces(p: Seq<char>, rest: Seq<char>, c: char)
    requires
        forall|i: int| 0 <= i < p.len() ==> #[trigger] p[i] != c,
    ensures
        split_on(p, c) == seq![p],
        split_on(p + seq![c] + rest, c) == seq![p] + split_on(rest, c),
{
    crate::text::lemma_find_char_is(p, c, 0, p.len() as int);
    let t = p + seq![c] + rest;
    assert forall|i: int| 0 <= i < p.len() implies #[trigger] t[i] != c by {
        assert(t[i] == p[i]);
    }
    crate::text::lemma_find_char_is(t, c, 0, p.len() as int);
    assert(t.take(p.len() as int) =~= p);
    assert(t.skip(p.len() as int + 1) =~= rest);
}

/// A piece `key=val`, with no `=` in the key, splits into the key and the value.
proof fn lemma_key_value(key: Seq<char>, val: Seq<char>)
    requires
        forall|i: int| 0 <= i < key.len() ==> #[trigger] key[i] != '=',
    ensures
        split_once(key + seq!['='] + val, '=') == Some((key, val)),
{
    let t = key + seq!['='] + val;
    assert forall|i: int| 0 <= i < key.len() implies #[trigger] t[i] != '=' by {
        assert(t[i] == key[i]);
    }
    crate::text::lemma_find_char_is(t, '=', 0, key.len() as int);
    assert(t.take(key.len() as int) =~= key);
    assert(t.skip(key.len() as int + 1) =~= val);
}

/// The payload that reports `remaining` of `limit` left, resetting in
/// `resets`, under the label `label`.
pub open spec fn quota_payload(remaining: u64, limit: u64, resets: Seq<char>, label: Seq<char>) -> Seq<char> {
    "remaining="@ + decimal(remaining as nat) + ",limit="@ + decimal(limit as nat) + ",resets="@
        + resets + ",label="@ + label
}

/// What is sent is what is shown: reading a full payload and drawing it
/// gives `label: remaining/limit (resets)`, for a reset time and a label
/// that are not empty, hold no comma and have no whitespace at their ends.
pub proof fn lemma_quota_round_trip(remaining: u64, limit: u64, resets: Seq<char>, label: Seq<char>)
    requires
        resets.len() > 0,
        label.len() > 0,
        forall|i: int| 0 <= i < resets.len() ==> #[trigger] resets[i] != ',',
        forall|i: int| 0 <= i < label.len() ==> #[trigger] label[i] != ',',
        trim(resets) == resets,
        trim(label) == label,
    ensures
        quota_line(Some(quota_of(split_on(quota_payload(remaining, limit, resets, label), ','))))
            == label + ": "@ + decimal(remaining as nat) + "/"@ + decimal(limit as nat) + " ("@
            + resets + ")"@,
{
    reveal_strlit("remaining=");
    reveal_strlit(",limit=");
    reveal_strlit(",resets=");
    reveal_strlit(",label=");
    reveal_strlit("remaining");
    reveal_strlit("limit");
    reveal_strlit("resets");
    reveal_strlit("label");
    let dr = decimal(remaining as nat);
    let dl = decimal(limit as nat);
    crate::text::lemma_decimal_reads_back(remaining as nat);
    crate::text::lemma_decimal_reads_back(limit as nat);
    let k1 = "remaining"@;
    let k2 = "limit"@;
    let k3 = "resets"@;
    let k4 = "label"@;
    let p1 = k1 + seq!['='] + dr;
    let p2 = k2 + seq!['='] + dl;
    let p3 = k3 + seq!['='] + resets;
    let p4 = k4 + seq!['='] + label;
    assert(quota_payload(remaining, limit, resets, label) =~= p1 + seq![','] + (p2 + seq![','] + (
    p3 + seq![','] + p4)));
    assert forall|i: int| 0 <= i < dr.len() implies #[trigger] dr[i] != ',' && dr[i] != '=' by {
        assert(crate::text::is_digit(dr[i]));
    }
    assert forall|i: int| 0 <= i < dl.len() implies #[trigger] dl[i] != ',' && dl[i] != '=' by {
        assert(crate::text::is_digit(dl[i]));
    }
    assert forall|i: int| 0 <= i < p1.len() implies #[trigger] p1[i] != ',' by {
        if i > k1.len() {
            assert(p1[i] == dr[i - k1.len() - 1]);
        }
    }
    assert forall|i: int| 0 <= i < p2.len() implies #[trigger] p2[i] != ',' by {
        if i > k2.len() {
            assert(p2[i] == dl[i - k2.len() - 1]);
        }
    }
    assert forall|i: int| 0 <= i < p3.len() implies #[trigger] p3[i] != ',' by {
        if i > k3.len() {
            assert(p3[i] == resets[i - k3.len() - 1]);
        }
    }
    assert forall|i: int| 0 <= i < p4.len() implies #[trigger] p4[i] != ',' by {
        if i > k4.len() {
            assert(p4[i] == label[i - k4.len() - 1]);
        }
    }
    lemma_split_on_pieces(p4, Seq::empty(), ',');
    lemma_split_on_pieces(p3, p4, ',');
    lemma_split_on_pieces(p2, p3 + seq![','] + p4, ',');
    lemma_split_on_pieces(p1, p2 + seq![','] + (p3 + seq![','] + p4), ',');
    let pieces = seq![p1, p2, p3, p4];
    assert(split_on(quota_payload(remaining, limit, resets, label), ',') =~= pieces);
    lemma_key_value(k1, dr);
    lemma_key_value(k2, dl);
    lemma_key_value(k3, resets);
    lemma_key_value(k4, label);
    // The numbers read back.
    assert(dr[0] != '+' && dl[0] != '+') by {
        assert(crate::text::is_digit(dr[0]));
        assert(crate::text::is_digit(dl[0]));
    }
    assert(trim(dr) == dr) by {
        assert(crate::text::is_digit(dr[0]) && crate::text::is_digit(dr.last()));
    }
    assert(trim(dl) == dl) by {
        assert(crate::text::is_digit(dl[0]) && crate::text::is_digit(dl.last()));
    }
    assert(crate::text::unsigned_body(dr) == dr);
    assert(crate::text::unsigned_body(dl) == dl);
    assert(quota_number(dr) == Some(remaining));
    assert(quota_number(dl) == Some(limit));
    assert(trim(k1) == k1 && trim(k2) == k2 && trim(k3) == k3 && trim(k4) == k4);
    let q0 = QuotaView { remaining: None, limit: None, resets: None, label: None };
    let q1 = quota_apply(q0, p1);
    let q2 = quota_apply(q1, p2);
    let q3 = quota_apply(q2, p3);
    let q4 = quota_apply(q3, p4);
    assert(q1.remaining == Some(remaining));
    assert(q2.limit == Some(limit) && q2.remaining == Some(remaining));
    assert(q3.resets == Some(resets));
    assert(q4 == QuotaView {
        remaining: Some(remaining),
        limit: Some(limit),
        resets: Some(resets),
        label: Some(label),
    });
    assert(seq![p1, p2].drop_last() =~= seq![p1]);
    assert(seq![p1, p2, p3].drop_last() =~= seq![p1, p2]);
    assert(pieces.drop_last() =~= seq![p1, p2, p3]);
    assert(seq![p1].drop_last() =~= Seq::<Seq<char>>::empty());
    assert(quota_of(Seq::<Seq<char>>::empty()) == q0);
    assert(quota_of(seq![p1]) == q1);
    assert(quota_of(seq![p1, p2]) == q2);
    assert(quota_of(seq![p1, p2, p3]) == q3);
    assert(quota_of(pieces) == q4);
}

/// The payload that reports `remaining` of `limit` left, resetting in
/// `resets`, with no label.
pub open spec fn quota_payload_unlabelled(remaining: u64, limit: u64, resets: Seq<char>) -> Seq<char> {
    "remaining="@ + decimal(remaining as nat) + ",limit="@ + decimal(limit as nat) + ",resets="@
        + resets
}

/// What is sent is what is shown, without a label: reading the payload and
/// drawing it gives `Quota: remaining/limit (resets)`, for a reset time
/// that is not empty, holds no comma and has no whitespace at its ends.
pub proof fn lemma_quota_round_trip_unlabelled(remaining: u64, limit: u64, resets: Seq<char>)
    requires
        resets.len() > 0,
        forall|i: int| 0 <= i < resets.len() ==> #[trigger] resets[i] != ',',
        trim(resets) == resets,
    ensures
        quota_line(Some(quota_of(split_on(quota_payload_unlabelled(remaining, limit, resets), ','))))
            == "Quota"@ + ": "@ + decimal(remaining as nat) + "/"@ + decimal(limit as nat) + " ("@
            + resets + ")"@,
{
    reveal_strlit("remaining=");
    reveal_strlit(",limit=");
    reveal_strlit(",resets=");
    reveal_strlit("remaining");
    reveal_strlit("limit");
    reveal_strlit("resets");
    let dr = decimal(remaining as nat);
    let dl = decimal(limit as nat);
    crate::text::lemma_decimal_reads_back(remaining as nat);
    crate::text::lemma_decimal_reads_back(limit as nat);
    let k1 = "remaining"@;
    let k2 = "limit"@;
    let k3 = "resets"@;
    let p1 = k1 + seq!['='] + dr;
    let p2 = k2 + seq!['='] + dl;
    let p3 = k3 + seq!['='] + resets;
    assert(quota_payload_unlabelled(remaining, limit, resets) =~= p1 + seq![','] + (p2 + seq![',']
        + p3));
    assert forall|i: int| 0 <= i < dr.len() implies #[trigger] dr[i] != ',' && dr[i] != '=' by {
        assert(crate::text::is_digit(dr[i]));
    }
    assert forall|i: int| 0 <= i < dl.len() implies #[trigger] dl[i] != ',' && dl[i] != '=' by {
        assert(crate::text::is_digit(dl[i]));
    }
    assert forall|i: int| 0 <= i < p1.len() implies #[trigger] p1[i] != ',' by {
        if i > k1.len() {
            assert(p1[i] == dr[i - k1.len() - 1]);
        }
    }
    assert forall|i: int| 0 <= i < p2.len() implies #[trigger] p2[i] != ',' by {
        if i > k2.len() {
            assert(p2[i] == dl[i - k2.len() - 1]);
        }
    }
    assert forall|i: int| 0 <= i < p3.len() implies #[trigger] p3[i] != ',' by {
        if i > k3.len() {
            assert(p3[i] == resets[i - k3.len() - 1]);
        }
    }
    lemma_split_on_pieces(p3, Seq::empty(), ',');
    lemma_split_on_pieces(p2, p3, ',');
    lemma_split_on_pieces(p1, p2 + seq![','] + p3, ',');
    let pieces = seq![p1, p2, p3];
    assert(split_on(quota_payload_unlabelled(remaining, limit, resets), ',') =~= pieces);
    lemma_key_value(k1, dr);
    lemma_key_value(k2, dl);
    lemma_key_value(k3, resets);
    assert(dr[0] != '+' && dl[0] != '+') by {
        assert(crate::text::is_digit(dr[0]));
        assert(crate::text::is_digit(dl[0]));
    }
    assert(trim(dr) == dr) by {
        assert(crate::text::is_digit(dr[0]) && crate::text::is_digit(dr.last()));
    }
    assert(trim(dl) == dl) by {
        assert(crate::text::is_digit(dl[0]) && crate::text::is_digit(dl.last()));
    }
    assert(crate::text::unsigned_body(dr) == dr);
    assert(crate::text::unsigned_body(dl) == dl);
    assert(quota_number(dr) == Some(remaining));
    assert(quota_number(dl) == Some(limit));
    assert(trim(k1) == k1 && trim(k2) == k2 && trim(k3) == k3);
    let q0 = QuotaView { remaining: None, limit: None, resets: None, label: None };
    let q1 = quota_apply(q0, p1);
    let q2 = quota_apply(q1, p2);
    let q3 = quota_apply(q2, p3);
    assert(q1.remaining == Some(remaining));
    assert(q2.limit == Some(limit) && q2.remaining == Some(remaining));
    assert(q3 == QuotaView {
        remaining: Some(remaining),
        limit: Some(limit),
        resets: Some(resets),
        label: None,
    });
    assert(seq![p1].drop_last() =~= Seq::<Seq<char>>::empty());
    assert(quota_of(Seq::<Seq<char>>::empty()) == q0);
    assert(quota_of(seq![p1]) == q1);
    assert(seq![p1, p2].drop_last() =~= seq![p1]);
    assert(pieces.drop_last() =~= seq![p1, p2]);
    assert(quota_of(seq![p1, p2]) == q2);
    assert(quota_of(pieces) == q3);
}

} // verus!
