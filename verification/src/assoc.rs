//! A small map kept as a list of `(key, value)` entries in insertion order.
//! Keys are compared by their view, so `String` and `TabKey` keys have
//! proved lookups; the first entry for a key is the one that counts.
use vstd::prelude::*;

verus! {

/// Keys whose equality can be decided and agrees with equality of views.
pub trait KeyEq: View + Sized {
    fn key_eq(&self, other: &Self) -> (r: bool)
        ensures
            r == (self@ == other@),
    ;
}

impl KeyEq for String {
    fn key_eq(&self, other: &Self) -> (r: bool) {
        *self == *other
    }
}

impl KeyEq for u32 {
    fn key_eq(&self, other: &Self) -> (r: bool) {
        *self == *other
    }
}

/// The map that a list of entries stands for: an earlier entry hides a later
/// one with the same key.
pub open spec fn entries_view<K: View, V>(e: Seq<(K, V)>) -> Map<K::V, V>
    decreases e.len(),
{
    if e.len() == 0 {
        Map::empty()
    } else {
        entries_view(e.drop_first()).insert(e[0].0@, e[0].1)
    }
}

/// The entries of `e` whose key is not `k`.
pub open spec fn without_key<K: View, V>(e: Seq<(K, V)>, k: K::V) -> Seq<(K, V)> {
    e.filter(|p: (K, V)| p.0@ != k)
}

/// `e` with `f` applied to every value.
pub open spec fn map_entry_values<K, V>(e: Seq<(K, V)>, f: spec_fn(V) -> V) -> Seq<(K, V)> {
    Seq::new(e.len(), |i: int| (e[i].0, f(e[i].1)))
}

pub proof fn lemma_entries_view_first<K: View, V>(e: Seq<(K, V)>, k: K::V, i: int)
    requires
        0 <= i <= e.len(),
        forall|j: int| 0 <= j < i ==> (#[trigger] e[j]).0@ != k,
    ensures
        entries_view(e).contains_key(k) == entries_view(e.skip(i)).contains_key(k),
        entries_view(e).contains_key(k) ==> entries_view(e)[k] == entries_view(e.skip(i))[k],
    decreases i,
{
    if i > 0 {
        assert(e[0].0@ != k);
        assert(e.drop_first().skip(i - 1) =~= e.skip(i));
        assert forall|j: int| 0 <= j < i - 1 implies (#[trigger] e.drop_first()[j]).0@ != k by {
            assert(e.drop_first()[j] == e[j + 1]);
        }
        lemma_entries_view_first(e.drop_first(), k, i - 1);
    } else {
        assert(e.skip(0) =~= e);
    }
}

pub proof fn lemma_entries_view_absent<K: View, V>(e: Seq<(K, V)>, k: K::V)
    requires
        forall|j: int| 0 <= j < e.len() ==> (#[trigger] e[j]).0@ != k,
    ensures
        !entries_view(e).contains_key(k),
    decreases e.len(),
{
    if e.len() > 0 {
        assert forall|j: int| 0 <= j < e.len() - 1 implies (#[trigger] e.drop_first()[j]).0@
            != k by {
            assert(e.drop_first()[j] == e[j + 1]);
        }
        lemma_entries_view_absent(e.drop_first(), k);
        assert(e[0].0@ != k);
    }
}

pub proof fn lemma_entries_view_at<K: View, V>(e: Seq<(K, V)>, i: int)
    requires
        0 <= i < e.len(),
        forall|j: int| 0 <= j < i ==> (#[trigger] e[j]).0@ != e[i].0@,
    ensures
        entries_view(e).contains_key(e[i].0@),
        entries_view(e)[e[i].0@] == e[i].1,
{
    lemma_entries_view_first(e, e[i].0@, i);
    let t = e.skip(i);
    assert(t[0] == e[i]);
}

pub proof fn lemma_entries_view_without<K: View, V>(e: Seq<(K, V)>, k: K::V)
    ensures
        entries_view(without_key(e, k)) == entries_view(e).remove(k),
    decreases e.len(),
{
    let f = |p: (K, V)| p.0@ != k;
    if e.len() == 0 {
        assert(e.filter(f) =~= Seq::<(K, V)>::empty());
        assert(entries_view(e).remove(k) =~= Map::<K::V, V>::empty());
    } else {
        lemma_entries_view_without(e.drop_first(), k);
        e.drop_first().lemma_filter_prepend(e[0], f);
        assert(seq![e[0]] + e.drop_first() =~= e);
        assert(e.drop_first().filter(f) == without_key(e.drop_first(), k));
        if e[0].0@ == k {
            assert(without_key(e, k) == without_key(e.drop_first(), k));
            assert(entries_view(e).remove(k) =~= entries_view(e.drop_first()).remove(k));
        } else {
            let w = without_key(e, k);
            assert(w == seq![e[0]] + without_key(e.drop_first(), k));
            assert(w.drop_first() =~= without_key(e.drop_first(), k));
            assert(entries_view(w) =~= entries_view(e).remove(k));
        }
    }
}

pub proof fn lemma_entries_view_push_absent<K: View, V>(e: Seq<(K, V)>, k: K, v: V)
    requires
        !entries_view(e).contains_key(k@),
    ensures
        entries_view(e.push((k, v))) == entries_view(e).insert(k@, v),
    decreases e.len(),
{
    if e.len() == 0 {
        assert(e.push((k, v)).drop_first() =~= Seq::<(K, V)>::empty());
        assert(e.push((k, v))[0] == (k, v));
        let x = e.push((k, v));
        assert(x.drop_first().len() == 0);
        assert(entries_view(x.drop_first()) == Map::<K::V, V>::empty());
        assert(entries_view(x) =~= Map::<K::V, V>::empty().insert(k@, v));
    } else {
        assert(e.push((k, v)).drop_first() =~= e.drop_first().push((k, v)));
        assert(e[0].0@ != k@);
        lemma_entries_view_push_absent(e.drop_first(), k, v);
        assert(entries_view(e.push((k, v))) =~= entries_view(e).insert(k@, v));
    }
}

pub proof fn lemma_entries_view_map_values<K: View, V>(e: Seq<(K, V)>, f: spec_fn(V) -> V)
    ensures
        entries_view(map_entry_values(e, f)).dom() == entries_view(e).dom(),
        forall|k: K::V| #[trigger]
            entries_view(e).contains_key(k) ==> entries_view(map_entry_values(e, f))[k] == f(
                entries_view(e)[k],
            ),
    decreases e.len(),
{
    let m = map_entry_values(e, f);
    if e.len() == 0 {
        assert(entries_view(m).dom() =~= entries_view(e).dom());
    } else {
        assert(m.drop_first() =~= map_entry_values(e.drop_first(), f));
        lemma_entries_view_map_values(e.drop_first(), f);
        assert(entries_view(m).dom() =~= entries_view(e).dom());
    }
}

/// A map kept as a list of entries; see `entries_view` for what it holds.
pub struct AssocMap<K, V> {
    pub entries: Vec<(K, V)>,
}

impl<K: View, V> View for AssocMap<K, V> {
    type V = Map<K::V, V>;

    open spec fn view(&self) -> Map<K::V, V> {
        entries_view(self.entries@)
    }
}

impl<K: KeyEq, V> AssocMap<K, V> {
    /// The empty map.
    pub fn new() -> (m: Self)
        ensures
            m@ == Map::<K::V, V>::empty(),
            m.entries@.len() == 0,
    {
        AssocMap { entries: Vec::new() }
    }

    /// The index of the entry that holds `k`, if any.
    pub fn index_of(&self, k: &K) -> (r: Option<usize>)
        ensures
            r is None ==> !self@.contains_key(k@),
            r matches Some(i) ==> i < self.entries@.len() && self.entries@[i as int].0@ == k@
                && self@.contains_key(k@) && self@[k@] == self.entries@[i as int].1,
    {
        let mut i: usize = 0;
        while i < self.entries.len()
            invariant
                i <= self.entries@.len(),
                forall|j: int| 0 <= j < i ==> (#[trigger] self.entries@[j]).0@ != k@,
            decreases self.entries@.len() - i,
        {
            if self.entries[i].0.key_eq(k) {
                proof {
                    lemma_entries_view_at(self.entries@, i as int);
                }
                return Some(i);
            }
            i = i + 1;
        }
        proof {
            lemma_entries_view_absent(self.entries@, k@);
        }
        None
    }

    /// Whether `k` has a value.
    pub fn contains_key(&self, k: &K) -> (r: bool)
        ensures
            r == self@.contains_key(k@),
    {
        self.index_of(k).is_some()
    }

    /// The value of `k`, if any.
    pub fn get(&self, k: &K) -> (r: Option<&V>)
        ensures
            r is None ==> !self@.contains_key(k@),
            r matches Some(v) ==> self@.contains_key(k@) && *v == self@[k@],
    {
        match self.index_of(k) {
            Some(i) => Some(&self.entries[i].1),
            None => None,
        }
    }

    /// Removes the value of `k`.
    pub fn remove(&mut self, k: &K) -> (r: bool)
        ensures
            final(self)@ == old(self)@.remove(k@),
            r == old(self)@.contains_key(k@),
    {
        let had = self.contains_key(k);
        let ghost old_e = self.entries@;
        let mut kept: Vec<(K, V)> = Vec::new();
        let mut rest: Vec<(K, V)> = Vec::new();
        std::mem::swap(&mut rest, &mut self.entries);
        let ghost all = rest@;
        let ghost f = |p: (K, V)| p.0@ != k@;
        while rest.len() > 0
            invariant
                rest@.len() <= all.len(),
                rest@ == all.skip(all.len() - rest@.len()),
                kept@ == all.take(all.len() - rest@.len()).filter(f),
                f == (|p: (K, V)| p.0@ != k@),
            decreases rest@.len(),
        {
            let ghost i = all.len() - rest@.len();
            let p = rest.remove(0);
            proof {
                assert(p == all[i]);
                assert(all.take(i + 1) =~= all.take(i).push(all[i]));
                all.take(i).lemma_filter_push(all[i], f);
                assert(rest@ =~= all.skip(all.len() - rest@.len()));
            }
            let keep = !p.0.key_eq(k);
            assert(keep == (p.0@ != k@));
            assert(f(p) == (p.0@ != k@));
            if keep {
                kept.push(p);
            }
        }
        assert(all.take(all.len() as int) =~= all);
        self.entries = kept;
        proof {
            lemma_entries_view_without(all, k@);
        }
        had
    }

    /// Sets the value of `k` to `v`.
    pub fn insert(&mut self, k: K, v: V)
        ensures
            final(self)@ == old(self)@.insert(k@, v),
    {
        let ghost before = self@;
        self.remove(&k);
        proof {
            lemma_entries_view_push_absent(self.entries@, k, v);
        }
        self.entries.push((k, v));
        assert(before.remove(k@).insert(k@, v) =~= before.insert(k@, v));
    }
}

/// `m` without the keys whose value is `v`.
pub open spec fn without_value<K>(m: Map<K, String>, v: Seq<char>) -> Map<K, String> {
    Map::new(|k: K| m.contains_key(k) && m[k]@ != v, |k: K| m[k])
}

pub proof fn lemma_without_value_insert<K>(m: Map<K, String>, v: Seq<char>, k: K, x: String)
    ensures
        without_value(m.insert(k, x), v) == (if x@ != v {
            without_value(m, v).insert(k, x)
        } else {
            without_value(m, v).remove(k)
        }),
{
    if x@ != v {
        assert(without_value(m.insert(k, x), v) =~= without_value(m, v).insert(k, x));
    } else {
        assert(without_value(m.insert(k, x), v) =~= without_value(m, v).remove(k));
    }
}

impl<K: KeyEq> AssocMap<K, String> {
    /// Removes every key whose value is `v`.
    pub fn remove_value(&mut self, v: &String)
        ensures
            final(self)@ == without_value(old(self)@, v@),
    {
        let mut rest: Vec<(K, String)> = Vec::new();
        std::mem::swap(&mut rest, &mut self.entries);
        let ghost all = rest@;
        let mut out: AssocMap<K, String> = AssocMap::new();
        assert(all.skip(all.len() as int) =~= Seq::<(K, String)>::empty());
        assert(without_value(Map::<K::V, String>::empty(), v@) =~= Map::<K::V, String>::empty());
        while rest.len() > 0
            invariant
                rest@.len() <= all.len(),
                rest@ == all.take(rest@.len() as int),
                out@ == without_value(entries_view(all.skip(rest@.len() as int)), v@),
            decreases rest@.len(),
        {
            let ghost n = rest@.len() as int;
            let (k, x) = rest.pop().unwrap();
            proof {
                assert((k, x) == all[n - 1]);
                assert(rest@ =~= all.take(n - 1));
                let t = all.skip(n - 1);
                assert(t[0] == all[n - 1]);
                assert(t.drop_first() =~= all.skip(n));
                assert(entries_view(t) == entries_view(all.skip(n)).insert(k@, x));
                lemma_without_value_insert(entries_view(all.skip(n)), v@, k@, x);
            }
            if x == *v {
                out.remove(&k);
            } else {
                out.insert(k, x);
            }
        }
        assert(all.skip(0) =~= all);
        self.entries = out.entries;
    }

    /// Replaces every value equal to `from` with `to`.
    pub fn replace_values(&mut self, from: &String, to: &String)
        ensures
            final(self)@.dom() == old(self)@.dom(),
            forall|k: K::V| #[trigger]
                old(self)@.contains_key(k) ==> final(self)@[k] == (if old(self)@[k]@ == from@ {
                    *to
                } else {
                    old(self)@[k]
                }),
    {
        let ghost f = |v: String| if v@ == from@ {
            *to
        } else {
            v
        };
        let mut rest: Vec<(K, String)> = Vec::new();
        std::mem::swap(&mut rest, &mut self.entries);
        let ghost all = rest@;
        let mut done: Vec<(K, String)> = Vec::new();
        while rest.len() > 0
            invariant
                rest@.len() <= all.len(),
                rest@ == all.skip(all.len() - rest@.len()),
                done@ == map_entry_values(all.take(all.len() - rest@.len()), f),
                f == (|v: String| if v@ == from@ {
                    *to
                } else {
                    v
                }),
            decreases rest@.len(),
        {
            let ghost i = all.len() - rest@.len();
            let (k, v) = rest.remove(0);
            proof {
                assert(rest@ =~= all.skip(all.len() - rest@.len()));
            }
            let nv = if v == *from {
                to.clone()
            } else {
                v
            };
            done.push((k, nv));
            proof {
                assert(done@ =~= map_entry_values(all.take(i + 1), f));
            }
        }
        assert(all.take(all.len() as int) =~= all);
        self.entries = done;
        proof {
            lemma_entries_view_map_values(all, f);
        }
    }
}

} // verus!
