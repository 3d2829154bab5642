//! What survives a restart: the group assignments, collapsed groups,
//! colours, markers and the collapsed flag, with per-tab keys written as
//! `name::position`. Reading and writing the file is the host's part.
use vstd::prelude::*;
use crate::assoc::{AssocMap, entries_view};
use crate::state::{lemma_tab_key_round_trip, tab_key_parse, tab_key_text, PluginState, TabKey};

verus! {

/// The state that is saved between sessions.
pub struct PersistedState {
    pub group_assignments: AssocMap<String, String>,
    pub collapsed_groups: AssocMap<String, ()>,
    pub custom_colors: AssocMap<String, String>,
    pub markers: AssocMap<String, String>,
    pub sidebar_collapsed: bool,
}

impl Default for PersistedState {
    fn default() -> (r: Self)
        ensures
            r.group_assignments@ == Map::<Seq<char>, String>::empty(),
            r.collapsed_groups@ == Map::<Seq<char>, ()>::empty(),
            r.custom_colors@ == Map::<Seq<char>, String>::empty(),
            r.markers@ == Map::<Seq<char>, String>::empty(),
            !r.sidebar_collapsed,
    {
        PersistedState {
            group_assignments: AssocMap::new(),
            collapsed_groups: AssocMap::new(),
            custom_colors: AssocMap::new(),
            markers: AssocMap::new(),
            sidebar_collapsed: false,
        }
    }
}

/// A per-tab map with each key written as its text `name::position`.
pub open spec fn keyed_by_text(m: Map<(Seq<char>, usize), String>) -> Map<Seq<char>, String> {
    Map::new(
        |t: Seq<char>|
            match tab_key_parse(t) {
                Some((n, p)) => p <= usize::MAX && m.contains_key((n, p as usize)) && tab_key_text(n, p)
                    == t,
                None => false,
            },
        |t: Seq<char>|
            match tab_key_parse(t) {
                Some((n, p)) => m[(n, p as usize)],
                None => m[(Seq::empty(), 0)],
            },
    )
}

/// A per-tab map read back from saved entries: each text that reads as a
/// key gives that key its value, the first such text for a key winning;
/// other texts are dropped.
pub open spec fn restore_entries(es: Seq<(String, String)>) -> Map<(Seq<char>, usize), String>
    decreases es.len(),
{
    if es.len() == 0 {
        Map::empty()
    } else {
        let rest = restore_entries(es.drop_first());
        match tab_key_parse(es[0].0@) {
            Some((n, p)) => if p <= usize::MAX {
                rest.insert((n, p as usize), es[0].1)
            } else {
                rest
            },
            None => rest,
        }
    }
}

/// A text map read with the exact text of each key.
pub open spec fn unkey(m: Map<Seq<char>, String>) -> Map<(Seq<char>, usize), String> {
    Map::new(
        |k: (Seq<char>, usize)| m.contains_key(tab_key_text(k.0, k.1 as nat)),
        |k: (Seq<char>, usize)| m[tab_key_text(k.0, k.1 as nat)],
    )
}

proof fn lemma_tab_key_text_injective(a: (Seq<char>, usize), b: (Seq<char>, usize))
    requires
        tab_key_text(a.0, a.1 as nat) == tab_key_text(b.0, b.1 as nat),
    ensures
        a == b,
{
    lemma_tab_key_round_trip(a.0, a.1);
    lemma_tab_key_round_trip(b.0, b.1);
}

proof fn lemma_keyed_insert(m: Map<(Seq<char>, usize), String>, k: (Seq<char>, usize), v: String)
    ensures
        keyed_by_text(m.insert(k, v)) == keyed_by_text(m).insert(tab_key_text(k.0, k.1 as nat), v),
{
    let tk = tab_key_text(k.0, k.1 as nat);
    lemma_tab_key_round_trip(k.0, k.1);
    assert forall|t: Seq<char>| #[trigger] keyed_by_text(m.insert(k, v)).contains_key(t) == keyed_by_text(m).insert(tk, v).contains_key(t) by {
        if t != tk {
            match tab_key_parse(t) {
                Some((n, p)) => {
                    if p <= usize::MAX && tab_key_text(n, p) == t {
                        if (n, p as usize) == k {
                            assert(tab_key_text(n, (p as usize) as nat) == tk);
                        }
                    }
                },
                None => {},
            }
        }
    }
    assert(keyed_by_text(m.insert(k, v)) =~= keyed_by_text(m).insert(tk, v));
}

proof fn lemma_unkey_insert(m: Map<Seq<char>, String>, k: (Seq<char>, usize), v: String)
    ensures
        unkey(m.insert(tab_key_text(k.0, k.1 as nat), v)) == unkey(m).insert(k, v),
{
    let tk = tab_key_text(k.0, k.1 as nat);
    assert forall|q: (Seq<char>, usize)| #[trigger] unkey(m.insert(tk, v)).contains_key(q) == unkey(m).insert(k, v).contains_key(q) by {
        if tab_key_text(q.0, q.1 as nat) == tk {
            lemma_tab_key_text_injective(q, k);
        }
    }
    assert forall|q: (Seq<char>, usize)| #[trigger] unkey(m.insert(tk, v)).contains_key(q) implies unkey(m.insert(tk, v))[q] == unkey(m).insert(k, v)[q] by {
        if tab_key_text(q.0, q.1 as nat) == tk {
            lemma_tab_key_text_injective(q, k);
        }
    }
    assert(unkey(m.insert(tk, v)) =~= unkey(m).insert(k, v));
}

/// Whether `t` is the exact text of the key it reads as.
pub open spec fn canonical_key_text(t: Seq<char>) -> bool {
    match tab_key_parse(t) {
        Some((n, p)) => p <= usize::MAX && tab_key_text(n, p) == t,
        None => false,
    }
}

proof fn lemma_restore_canonical(es: Seq<(String, String)>)
    requires
        forall|t: Seq<char>| #[trigger] entries_view(es).contains_key(t) ==> canonical_key_text(t),
    ensures
        restore_entries(es) == unkey(entries_view(es)),
    decreases es.len(),
{
    if es.len() == 0 {
        assert(unkey(Map::<Seq<char>, String>::empty()) =~= Map::empty());
    } else {
        let df = es.drop_first();
        let t0 = es[0].0@;
        assert(entries_view(es) == entries_view(df).insert(t0, es[0].1));
        assert forall|t: Seq<char>| #[trigger] entries_view(df).contains_key(t) implies canonical_key_text(t) by {
            assert(entries_view(es).contains_key(t));
        }
        lemma_restore_canonical(df);
        assert(entries_view(es).contains_key(t0));
        let (n, p) = tab_key_parse(t0)->0;
        lemma_unkey_insert(entries_view(df), (n, p as usize), es[0].1);
    }
}

/// A saved map reads back as it was: restoring entries that hold exactly the
/// texts of a map's keys, with their values, gives that map.
pub proof fn lemma_persist_round_trip(m: Map<(Seq<char>, usize), String>, es: Seq<(String, String)>)
    requires
        entries_view(es) == keyed_by_text(m),
    ensures
        restore_entries(es) == m,
{
    assert forall|t: Seq<char>| #[trigger] entries_view(es).contains_key(t) implies canonical_key_text(t) by {
    }
    lemma_restore_canonical(es);
    assert forall|k: (Seq<char>, usize)| #[trigger] unkey(keyed_by_text(m)).contains_key(k) == m.contains_key(k) by {
        lemma_tab_key_round_trip(k.0, k.1);
    }
    assert forall|k: (Seq<char>, usize)| #[trigger] m.contains_key(k) implies unkey(keyed_by_text(m))[k] == m[k] by {
        lemma_tab_key_round_trip(k.0, k.1);
    }
    assert(unkey(keyed_by_text(m)) =~= m);
}

/// The per-tab map `m` with each key written as its text.
pub fn keys_to_text(m: &AssocMap<TabKey, String>) -> (r: AssocMap<String, String>)
    ensures
        r@ == keyed_by_text(m@),
{
    let mut out: AssocMap<String, String> = AssocMap::new();
    let mut i: usize = m.entries.len();
    assert(m.entries@.skip(m.entries@.len() as int) =~= Seq::<(TabKey, String)>::empty());
    assert(keyed_by_text(Map::<(Seq<char>, usize), String>::empty()) =~= Map::empty());
    while i > 0
        invariant
            i <= m.entries@.len(),
            out@ == keyed_by_text(entries_view(m.entries@.skip(i as int))),
        decreases i,
    {
        let ghost rest = m.entries@.skip(i as int);
        assert(m.entries@.skip(i - 1).drop_first() =~= rest);
        let (k, v) = &m.entries[i - 1];
        let text = k.to_string();
        proof {
            lemma_keyed_insert(entries_view(rest), k@, *v);
        }
        out.insert(text, v.clone());
        i = i - 1;
    }
    assert(m.entries@.skip(0) =~= m.entries@);
    out
}

/// The per-tab map read back from text keys (see `restore_entries`).
pub fn keys_from_text(m: &AssocMap<String, String>) -> (r: AssocMap<TabKey, String>)
    ensures
        r@ == restore_entries(m.entries@),
{
    let mut out: AssocMap<TabKey, String> = AssocMap::new();
    let mut i: usize = m.entries.len();
    assert(m.entries@.skip(m.entries@.len() as int) =~= Seq::<(String, String)>::empty());
    while i > 0
        invariant
            i <= m.entries@.len(),
            out@ == restore_entries(m.entries@.skip(i as int)),
        decreases i,
    {
        let ghost rest = m.entries@.skip(i as int);
        assert(m.entries@.skip(i - 1).drop_first() =~= rest);
        let (t, v) = &m.entries[i - 1];
        match TabKey::parse(t.as_str()) {
            Ok(k) => {
                out.insert(k, v.clone());
            },
            Err(_) => {},
        }
        i = i - 1;
    }
    assert(m.entries@.skip(0) =~= m.entries@);
    out
}

/// A copy of a set of names.
fn copy_names(m: &AssocMap<String, ()>) -> (r: AssocMap<String, ()>)
    ensures
        r@ == m@,
{
    let mut out: AssocMap<String, ()> = AssocMap::new();
    let mut i: usize = m.entries.len();
    assert(m.entries@.skip(m.entries@.len() as int) =~= Seq::<(String, ())>::empty());
    while i > 0
        invariant
            i <= m.entries@.len(),
            out@ == entries_view(m.entries@.skip(i as int)),
        decreases i,
    {
        assert(m.entries@.skip(i - 1).drop_first() =~= m.entries@.skip(i as int));
        let (t, _) = &m.entries[i - 1];
        out.insert(t.clone(), ());
        i = i - 1;
    }
    assert(m.entries@.skip(0) =~= m.entries@);
    out
}

impl PersistedState {
    /// What is saved of `state`.
    pub fn from_state(state: &PluginState) -> (p: PersistedState)
        ensures
            p.group_assignments@ == keyed_by_text(state.group_assignments@),
            p.collapsed_groups@ == state.collapsed_groups@,
            p.custom_colors@ == keyed_by_text(state.custom_colors@),
            p.markers@ == keyed_by_text(state.markers@),
            p.sidebar_collapsed == state.sidebar_collapsed,
    {
        PersistedState {
            group_assignments: keys_to_text(&state.group_assignments),
            collapsed_groups: copy_names(&state.collapsed_groups),
            custom_colors: keys_to_text(&state.custom_colors),
            markers: keys_to_text(&state.markers),
            sidebar_collapsed: state.sidebar_collapsed,
        }
    }
}

impl PluginState {
    /// Takes over what was saved: assignments, collapsed groups, colours,
    /// markers and the collapsed flag.
    pub fn restore_persisted(&mut self, p: PersistedState)
        ensures
            final(self).group_assignments@ == restore_entries(p.group_assignments.entries@),
            final(self).collapsed_groups@ == p.collapsed_groups@,
            final(self).custom_colors@ == restore_entries(p.custom_colors.entries@),
            final(self).markers@ == restore_entries(p.markers.entries@),
            final(self).sidebar_collapsed == p.sidebar_collapsed,
            *final(self) == (PluginState {
                group_assignments: final(self).group_assignments,
                collapsed_groups: final(self).collapsed_groups,
                custom_colors: final(self).custom_colors,
                markers: final(self).markers,
                sidebar_collapsed: final(self).sidebar_collapsed,
                ..*old(self)
            }),
    {
        self.group_assignments = keys_from_text(&p.group_assignments);
        self.custom_colors = keys_from_text(&p.custom_colors);
        self.markers = keys_from_text(&p.markers);
        self.sidebar_collapsed = p.sidebar_collapsed;
        self.collapsed_groups = p.collapsed_groups;
    }
}

} // verus!
