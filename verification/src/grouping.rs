//! Which group each tab belongs to, and the order in which groups are shown:
//! `Default` first, then the configured groups by name.
use vstd::prelude::*;
use crate::assoc::AssocMap;
use crate::config::{GroupConfig, ThemeConfig};
use crate::state::{PaneEntry, TabEntry, TabKey};
use crate::text::{chars_less, lemma_chars_le_trans, lemma_chars_less_total, str_eq, str_less};

verus! {

/// Whether `pattern` compiles as a regular expression.
pub uninterp spec fn regex_compiles(pattern: Seq<char>) -> bool;

/// Whether the compiled `pattern` matches somewhere in `text`.
pub uninterp spec fn regex_finds(pattern: Seq<char>, text: Seq<char>) -> bool;

/// Compiles `pattern` with `regex::Regex::new` and, where that succeeds, asks
/// `Regex::is_match` whether it matches somewhere in `text`. Trusted: the
/// result is `None` exactly when compiling fails (named `regex_compiles`),
/// and otherwise whether a match was found (named `regex_finds`); what either
/// name holds on given texts is left to the regex crate.
#[verifier::external_body]
fn pattern_search(pattern: &str, text: &str) -> (r: Option<bool>)
    ensures
        r == (if regex_compiles(pattern@) {
            Some(regex_finds(pattern@, text@))
        } else {
            None
        }),
{
    match regex::Regex::new(pattern) {
        Ok(re) => Some(re.is_match(text)),
        Err(_) => None,
    }
}

/// A tab as grouping sees it: position, name, active flag and panes.
pub open spec fn tab_view(t: TabEntry) -> (usize, Seq<char>, bool, Seq<PaneEntry>) {
    (t.position, t.name@, t.active, t.panes@)
}

/// The views of a list of tabs.
pub open spec fn tab_views(ts: Seq<TabEntry>) -> Seq<(usize, Seq<char>, bool, Seq<PaneEntry>)> {
    ts.map_values(|t: TabEntry| tab_view(t))
}

/// Whether a group's pattern is non-empty, compiles and matches `name`.
pub open spec fn pattern_hits(gc: GroupConfig, name: Seq<char>) -> bool {
    gc.pattern@.len() > 0 && regex_compiles(gc.pattern@) && regex_finds(gc.pattern@, name)
}

/// The name of the first group whose pattern matches `name`.
pub open spec fn matched_group(configs: Seq<GroupConfig>, name: Seq<char>) -> Option<Seq<char>>
    decreases configs.len(),
{
    if configs.len() == 0 {
        None
    } else if pattern_hits(configs[0], name) {
        Some(configs[0].name@)
    } else {
        matched_group(configs.drop_first(), name)
    }
}

/// The group a tab goes to: the one set by hand for its key, else the first
/// group whose pattern matches its name, else `Default`.
pub open spec fn target_group(
    t: TabEntry,
    configs: Seq<GroupConfig>,
    manual: Map<(Seq<char>, usize), String>,
) -> Seq<char> {
    if manual.contains_key((t.name@, t.position)) {
        manual[(t.name@, t.position)]@
    } else {
        match matched_group(configs, t.name@) {
            Some(g) => g,
            None => "Default"@,
        }
    }
}

/// The tabs, in their order, that go to group `g`.
pub open spec fn members(
    tabs: Seq<TabEntry>,
    configs: Seq<GroupConfig>,
    manual: Map<(Seq<char>, usize), String>,
    g: Seq<char>,
) -> Seq<(usize, Seq<char>, bool, Seq<PaneEntry>)>
    decreases tabs.len(),
{
    if tabs.len() == 0 {
        Seq::empty()
    } else {
        let rest = members(tabs.drop_last(), configs, manual, g);
        if target_group(tabs.last(), configs, manual) == g {
            rest.push(tab_view(tabs.last()))
        } else {
            rest
        }
    }
}

/// A group as it is to be shown: its name, where its theme comes from
/// (`None` for the default theme, `Some(j)` for that of the `j`-th
/// configured group), its tabs and whether it is collapsed.
pub struct GroupPlan {
    pub name: Seq<char>,
    pub theme: Option<int>,
    pub tabs: Seq<(usize, Seq<char>, bool, Seq<PaneEntry>)>,
    pub collapsed: bool,
}

/// `s`, sorted by name, with `x` put after every group whose name is not
/// greater than its own.
pub open spec fn insert_sorted(s: Seq<GroupPlan>, x: GroupPlan) -> Seq<GroupPlan>
    decreases s.len(),
{
    if s.len() == 0 {
        seq![x]
    } else if !chars_less(x.name, s.last().name) {
        s.push(x)
    } else {
        insert_sorted(s.drop_last(), x).push(s.last())
    }
}

/// The groups of `s` sorted by name; groups of equal name keep their order.
pub open spec fn sort_plans(s: Seq<GroupPlan>) -> Seq<GroupPlan>
    decreases s.len(),
{
    if s.len() == 0 {
        s
    } else {
        insert_sorted(sort_plans(s.drop_last()), s.last())
    }
}

/// Whether no group before the `j`-th has its name.
pub open spec fn first_with_name(configs: Seq<GroupConfig>, j: int) -> bool {
    forall|k: int| 0 <= k < j ==> (#[trigger] configs[k]).name@ != configs[j].name@
}

/// The `Default` group, shown when it has tabs or when empty groups are shown.
pub open spec fn default_plan(
    tabs: Seq<TabEntry>,
    configs: Seq<GroupConfig>,
    manual: Map<(Seq<char>, usize), String>,
    collapsed: Map<Seq<char>, ()>,
    show_empty: bool,
) -> Seq<GroupPlan> {
    let m = members(tabs, configs, manual, "Default"@);
    if m.len() > 0 || show_empty {
        seq![GroupPlan { name: "Default"@, theme: None, tabs: m, collapsed: collapsed.contains_key("Default"@) }]
    } else {
        Seq::empty()
    }
}

/// The configured groups among the first `n`, in configuration order: a group
/// named `Default` is left out, and of several groups with one name only the
/// first gets the tabs. A group without tabs is shown only with `show_empty`.
pub open spec fn named_plans(
    tabs: Seq<TabEntry>,
    configs: Seq<GroupConfig>,
    manual: Map<(Seq<char>, usize), String>,
    collapsed: Map<Seq<char>, ()>,
    show_empty: bool,
    n: int,
) -> Seq<GroupPlan>
    decreases n,
{
    if n <= 0 {
        Seq::empty()
    } else {
        let rest = named_plans(tabs, configs, manual, collapsed, show_empty, n - 1);
        let gc = configs[n - 1];
        if gc.name@ == "Default"@ {
            rest
        } else {
            let m = if first_with_name(configs, n - 1) {
                members(tabs, configs, manual, gc.name@)
            } else {
                Seq::empty()
            };
            if m.len() > 0 || show_empty {
                rest.push(
                    GroupPlan {
                        name: gc.name@,
                        theme: Some(n - 1),
                        tabs: m,
                        collapsed: collapsed.contains_key(gc.name@),
                    },
                )
            } else {
                rest
            }
        }
    }
}

/// The groups to show, in order: `Default` first, then the configured groups
/// sorted by name.
pub open spec fn group_plan(
    tabs: Seq<TabEntry>,
    configs: Seq<GroupConfig>,
    manual: Map<(Seq<char>, usize), String>,
    collapsed: Map<Seq<char>, ()>,
    show_empty: bool,
) -> Seq<GroupPlan> {
    default_plan(tabs, configs, manual, collapsed, show_empty) + sort_plans(
        named_plans(tabs, configs, manual, collapsed, show_empty, configs.len() as int),
    )
}

/// A group with its tabs, ready to be drawn.
pub struct GroupedTabs {
    pub group_name: String,
    pub theme: ThemeConfig,
    pub tabs: Vec<TabEntry>,
    pub collapsed: bool,
}

/// Whether `g` is the group that `p` describes.
pub open spec fn grouped_matches(g: GroupedTabs, p: GroupPlan, configs: Seq<GroupConfig>) -> bool {
    &&& g.group_name@ == p.name
    &&& tab_views(g.tabs@) == p.tabs
    &&& g.collapsed == p.collapsed
    &&& match p.theme {
        None => g.theme.is_default(),
        Some(j) => 0 <= j < configs.len() && g.theme == configs[j].theme,
    }
}

/// Whether each group of `gs` is the one of `ps` at its place.
pub open spec fn all_grouped_match(gs: Seq<GroupedTabs>, ps: Seq<GroupPlan>, configs: Seq<GroupConfig>) -> bool {
    &&& gs.len() == ps.len()
    &&& forall|i: int| 0 <= i < gs.len() ==> grouped_matches(#[trigger] gs[i], ps[i], configs)
}

proof fn lemma_insert_sorted_at(s: Seq<GroupPlan>, x: GroupPlan, k: int)
    requires
        0 <= k <= s.len(),
        forall|j: int| k <= j < s.len() ==> chars_less(x.name, #[trigger] s[j].name),
        k > 0 ==> !chars_less(x.name, s[k - 1].name),
    ensures
        insert_sorted(s, x) == s.insert(k, x),
    decreases s.len(),
{
    if s.len() == 0 {
        assert(s.insert(k, x) =~= seq![x]);
    } else if k == s.len() {
        assert(s.insert(k, x) =~= s.push(x));
    } else {
        assert(chars_less(x.name, s.last().name));
        lemma_insert_sorted_at(s.drop_last(), x, k);
        assert(s.drop_last().insert(k, x).push(s.last()) =~= s.insert(k, x));
    }
}

/// The group `tab` goes to.
fn target_of(tab: &TabEntry, configs: &[GroupConfig], manual: &AssocMap<TabKey, String>) -> (r: String)
    ensures
        r@ == target_group(*tab, configs@, manual@),
{
    let key = TabKey::new(tab.name.as_str(), tab.position);
    match manual.get(&key) {
        Some(g) => {
            return g.clone();
        },
        None => {},
    }
    assert(configs@.skip(0) =~= configs@);
    let mut j: usize = 0;
    while j < configs.len()
        invariant
            j <= configs@.len(),
            !manual@.contains_key((tab.name@, tab.position)),
            matched_group(configs@, tab.name@) == matched_group(configs@.skip(j as int), tab.name@),
        decreases configs@.len() - j,
    {
        assert(configs@.skip(j as int).drop_first() =~= configs@.skip(j + 1));
        assert(configs@.skip(j as int)[0] == configs@[j as int]);
        let gc = &configs[j];
        if !gc.pattern.as_str().is_empty() {
            match pattern_search(gc.pattern.as_str(), tab.name.as_str()) {
                Some(true) => {
                    return gc.name.clone();
                },
                _ => {},
            }
        }
        j = j + 1;
    }
    "Default".to_owned()
}

/// The tabs whose group, as listed in `targets`, is `g`, in their order.
fn members_of(
    tabs: &[TabEntry],
    targets: &Vec<String>,
    g: &str,
    configs: &[GroupConfig],
    manual: &AssocMap<TabKey, String>,
) -> (r: Vec<TabEntry>)
    requires
        targets@.len() == tabs@.len(),
        forall|i: int| 0 <= i < tabs@.len() ==> (#[trigger] targets@[i])@ == target_group(tabs@[i], configs@, manual@),
    ensures
        tab_views(r@) == members(tabs@, configs@, manual@, g@),
{
    let mut r: Vec<TabEntry> = Vec::new();
    let mut i: usize = 0;
    while i < tabs.len()
        invariant
            i <= tabs@.len(),
            targets@.len() == tabs@.len(),
            forall|k: int| 0 <= k < tabs@.len() ==> (#[trigger] targets@[k])@ == target_group(tabs@[k], configs@, manual@),
            tab_views(r@) == members(tabs@.take(i as int), configs@, manual@, g@),
        decreases tabs@.len() - i,
    {
        let ghost before = r@;
        assert(tabs@.take(i + 1).drop_last() =~= tabs@.take(i as int));
        assert(tabs@.take(i + 1).last() == tabs@[i as int]);
        if str_eq(targets[i].as_str(), g) {
            let t = tabs[i].copy();
            r.push(t);
            assert(tab_views(r@) =~= tab_views(before).push(tab_view(tabs@[i as int])));
        }
        i = i + 1;
    }
    assert(tabs@.take(tabs@.len() as int) =~= tabs@);
    r
}

/// Puts `g` into `v`, which is sorted by name, after every group whose name
/// is not greater than its own.
fn insert_by_name(v: &mut Vec<GroupedTabs>, g: GroupedTabs, Ghost(ps): Ghost<Seq<GroupPlan>>, Ghost(p): Ghost<GroupPlan>, Ghost(configs): Ghost<Seq<GroupConfig>>)
    requires
        all_grouped_match(old(v)@, ps, configs),
        grouped_matches(g, p, configs),
    ensures
        all_grouped_match(final(v)@, insert_sorted(ps, p), configs),
{
    let mut k: usize = v.len();
    while k > 0 && str_less(g.group_name.as_str(), v[k - 1].group_name.as_str())
        invariant
            k <= v@.len(),
            all_grouped_match(v@, ps, configs),
            grouped_matches(g, p, configs),
            forall|j: int| k <= j < ps.len() ==> chars_less(p.name, #[trigger] ps[j].name),
        decreases k,
    {
        k = k - 1;
    }
    proof {
        lemma_insert_sorted_at(ps, p, k as int);
    }
    let ghost before = v@;
    v.insert(k, g);
    assert forall|i: int| 0 <= i < v@.len() implies grouped_matches(#[trigger] v@[i], ps.insert(k as int, p)[i], configs) by {
        if i < k {
            assert(v@[i] == before[i]);
        } else if i > k {
            assert(v@[i] == before[i - 1]);
        }
    }
}

/// Sorts tabs into groups. A tab goes to the group set for it by hand, else
/// to the first configured group whose non-empty pattern matches its name,
/// else to `Default`. `Default` comes first, then the configured groups
/// sorted by name; groups without tabs are left out unless `show_empty`.
pub fn assign_groups(
    tabs: &[TabEntry],
    group_configs: &[GroupConfig],
    manual: &AssocMap<TabKey, String>,
    collapsed: &AssocMap<String, ()>,
    show_empty: bool,
    _sort_by: &str,
) -> (r: Vec<GroupedTabs>)
    ensures
        all_grouped_match(r@, group_plan(tabs@, group_configs@, manual@, collapsed@, show_empty), group_configs@),
{
    let ghost configs = group_configs@;
    let mut targets: Vec<String> = Vec::new();
    let mut i: usize = 0;
    while i < tabs.len()
        invariant
            i <= tabs@.len(),
            configs == group_configs@,
            targets@.len() == i,
            forall|k: int| 0 <= k < i ==> (#[trigger] targets@[k])@ == target_group(tabs@[k], configs, manual@),
        decreases tabs@.len() - i,
    {
        let t = target_of(&tabs[i], group_configs, manual);
        assert(t@ == target_group(tabs@[i as int], configs, manual@));
        let ghost before = targets@;
        targets.push(t);
        assert(forall|k: int| 0 <= k < i ==> targets@[k] == before[k]);
        i = i + 1;
    }

    let mut result: Vec<GroupedTabs> = Vec::new();
    let dm = members_of(tabs, &targets, "Default", group_configs, manual);
    if dm.len() > 0 || show_empty {
        let name = "Default".to_owned();
        let is_collapsed = collapsed.contains_key(&name);
        result.push(GroupedTabs { group_name: name, theme: ThemeConfig::default(), tabs: dm, collapsed: is_collapsed });
    }
    let ghost dp = default_plan(tabs@, configs, manual@, collapsed@, show_empty);
    assert(all_grouped_match(result@, dp, configs));

    let mut named: Vec<GroupedTabs> = Vec::new();
    let mut j: usize = 0;
    while j < group_configs.len()
        invariant
            j <= configs.len(),
            configs == group_configs@,
            targets@.len() == tabs@.len(),
            forall|k: int| 0 <= k < tabs@.len() ==> (#[trigger] targets@[k])@ == target_group(tabs@[k], configs, manual@),
            all_grouped_match(named@, sort_plans(named_plans(tabs@, configs, manual@, collapsed@, show_empty, j as int)), configs),
        decreases configs.len() - j,
    {
        let ghost before = named_plans(tabs@, configs, manual@, collapsed@, show_empty, j as int);
        let gc = &group_configs[j];
        if !str_eq(gc.name.as_str(), "Default") {
            let mut first = true;
            let mut k: usize = 0;
            while k < j
                invariant
                    k <= j < configs.len(),
                    configs == group_configs@,
                    first == (forall|q: int| 0 <= q < k ==> (#[trigger] configs[q]).name@ != configs[j as int].name@),
                decreases j - k,
            {
                if group_configs[k].name == group_configs[j].name {
                    first = false;
                }
                k = k + 1;
            }
            let m = if first {
                members_of(tabs, &targets, gc.name.as_str(), group_configs, manual)
            } else {
                Vec::new()
            };
            if m.len() > 0 || show_empty {
                let g = GroupedTabs {
                    group_name: gc.name.clone(),
                    theme: gc.theme.copy(),
                    tabs: m,
                    collapsed: collapsed.contains_key(&gc.name),
                };
                let ghost p = GroupPlan {
                    name: gc.name@,
                    theme: Some(j as int),
                    tabs: tab_views(g.tabs@),
                    collapsed: g.collapsed,
                };
                assert(tab_views(Seq::<TabEntry>::empty()) =~= Seq::empty());
                insert_by_name(&mut named, g, Ghost(sort_plans(before)), Ghost(p), Ghost(configs));
                assert(before.push(p).drop_last() =~= before);
            }
        }
        j = j + 1;
    }
    let ghost np = sort_plans(named_plans(tabs@, configs, manual@, collapsed@, show_empty, configs.len() as int));
    let ghost r0 = result@;
    let ghost n0 = named@;
    result.append(&mut named);
    assert forall|i: int| 0 <= i < result@.len() implies grouped_matches(#[trigger] result@[i], (dp + np)[i], configs) by {
        if i < r0.len() {
            assert(result@[i] == r0[i]);
        } else {
            assert(result@[i] == n0[i - r0.len()]);
        }
    }
    result
}

/// Each group's name is not before the name of any group before it.
pub open spec fn sorted_by_name(s: Seq<GroupPlan>) -> bool {
    forall|i: int, j: int| 0 <= i < j < s.len() ==> !chars_less(#[trigger] s[j].name, #[trigger] s[i].name)
}

proof fn lemma_insert_sorted_bounded(s: Seq<GroupPlan>, x: GroupPlan, b: Seq<char>)
    requires
        forall|m: int| 0 <= m < s.len() ==> !chars_less(b, #[trigger] s[m].name),
        !chars_less(b, x.name),
    ensures
        insert_sorted(s, x).len() == s.len() + 1,
        forall|m: int| 0 <= m < insert_sorted(s, x).len() ==> !chars_less(b, #[trigger] insert_sorted(s, x)[m].name),
    decreases s.len(),
{
    if s.len() > 0 && chars_less(x.name, s.last().name) {
        let s2 = s.drop_last();
        assert forall|m: int| 0 <= m < s2.len() implies !chars_less(b, #[trigger] s2[m].name) by {
            assert(s2[m] == s[m]);
        }
        lemma_insert_sorted_bounded(s2, x, b);
        let r = insert_sorted(s2, x);
        assert forall|m: int| 0 <= m < r.push(s.last()).len() implies !chars_less(b, #[trigger] r.push(s.last())[m].name) by {
            if m < r.len() {
                assert(r.push(s.last())[m] == r[m]);
            } else {
                assert(s.last() == s[s.len() - 1]);
            }
        }
    } else if s.len() > 0 {
        assert forall|m: int| 0 <= m < s.push(x).len() implies !chars_less(b, #[trigger] s.push(x)[m].name) by {
            if m < s.len() {
                assert(s.push(x)[m] == s[m]);
            }
        }
    }
}

proof fn lemma_insert_sorted_sorted(s: Seq<GroupPlan>, x: GroupPlan)
    requires
        sorted_by_name(s),
    ensures
        sorted_by_name(insert_sorted(s, x)),
    decreases s.len(),
{
    if s.len() == 0 {
    } else if !chars_less(x.name, s.last().name) {
        let r = s.push(x);
        assert forall|i: int, j: int| 0 <= i < j < r.len() implies !chars_less(#[trigger] r[j].name, #[trigger] r[i].name) by {
            if j < s.len() {
                assert(r[j] == s[j] && r[i] == s[i]);
            } else {
                assert(r[i] == s[i]);
                if i < s.len() - 1 {
                    assert(!chars_less(s[s.len() - 1].name, s[i].name));
                    lemma_chars_le_trans(s[i].name, s[s.len() - 1].name, x.name);
                }
            }
        }
    } else {
        let s2 = s.drop_last();
        let last = s.last();
        assert(sorted_by_name(s2)) by {
            assert forall|i: int, j: int| 0 <= i < j < s2.len() implies !chars_less(#[trigger] s2[j].name, #[trigger] s2[i].name) by {
                assert(s2[j] == s[j] && s2[i] == s[i]);
            }
        }
        lemma_insert_sorted_sorted(s2, x);
        assert forall|m: int| 0 <= m < s2.len() implies !chars_less(last.name, #[trigger] s2[m].name) by {
            assert(s2[m] == s[m]);
            assert(last == s[s.len() - 1]);
        }
        lemma_chars_less_total(x.name, last.name);
        lemma_insert_sorted_bounded(s2, x, last.name);
        let q = insert_sorted(s2, x);
        let r = q.push(last);
        assert forall|i: int, j: int| 0 <= i < j < r.len() implies !chars_less(#[trigger] r[j].name, #[trigger] r[i].name) by {
            assert(r[i] == q[i]);
            if j < q.len() {
                assert(r[j] == q[j]);
            }
        }
    }
}

proof fn lemma_sort_plans_sorted(s: Seq<GroupPlan>)
    ensures
        sorted_by_name(sort_plans(s)),
    decreases s.len(),
{
    if s.len() > 0 {
        lemma_sort_plans_sorted(s.drop_last());
        lemma_insert_sorted_sorted(sort_plans(s.drop_last()), s.last());
    }
}

/// `Default` comes first when it is shown, and the configured groups after
/// it, in name order.
pub proof fn lemma_group_plan_order(
    tabs: Seq<TabEntry>,
    configs: Seq<GroupConfig>,
    manual: Map<(Seq<char>, usize), String>,
    collapsed: Map<Seq<char>, ()>,
    show_empty: bool,
)
    ensures
        ({
            let p = group_plan(tabs, configs, manual, collapsed, show_empty);
            let d = default_plan(tabs, configs, manual, collapsed, show_empty).len();
            &&& d <= 1
            &&& (d == 1 ==> p[0].name == "Default"@)
            &&& forall|i: int, j: int| d <= i < j < p.len() ==> !chars_less(#[trigger] p[j].name, #[trigger] p[i].name)
        }),
{
    let p = group_plan(tabs, configs, manual, collapsed, show_empty);
    let dp = default_plan(tabs, configs, manual, collapsed, show_empty);
    let sp = sort_plans(named_plans(tabs, configs, manual, collapsed, show_empty, configs.len() as int));
    lemma_sort_plans_sorted(named_plans(tabs, configs, manual, collapsed, show_empty, configs.len() as int));
    let d = dp.len() as int;
    assert forall|i: int, j: int| d <= i < j < p.len() implies !chars_less(#[trigger] p[j].name, #[trigger] p[i].name) by {
        assert(p[i] == sp[i - d]);
        assert(p[j] == sp[j - d]);
    }
}

/// A shown group's name and theme agree with the configuration: `Default`
/// with the default theme, any other group with the theme of a configured
/// group of that name.
pub open spec fn plan_theme_ok(configs: Seq<GroupConfig>, p: GroupPlan) -> bool {
    if p.name == "Default"@ {
        p.theme is None
    } else {
        p.theme matches Some(j) && 0 <= j < configs.len() && configs[j].name@ == p.name
    }
}

proof fn lemma_insert_sorted_keeps(configs: Seq<GroupConfig>, s: Seq<GroupPlan>, x: GroupPlan)
    requires
        forall|i: int| 0 <= i < s.len() ==> plan_theme_ok(configs, #[trigger] s[i]),
        plan_theme_ok(configs, x),
    ensures
        forall|i: int|
            0 <= i < insert_sorted(s, x).len() ==> plan_theme_ok(configs, #[trigger] insert_sorted(s, x)[i]),
    decreases s.len(),
{
    if s.len() > 0 && chars_less(x.name, s.last().name) {
        let init = s.drop_last();
        assert forall|i: int| 0 <= i < init.len() implies plan_theme_ok(configs, #[trigger] init[i]) by {
            assert(init[i] == s[i]);
        }
        lemma_insert_sorted_keeps(configs, init, x);
        let r = insert_sorted(init, x).push(s.last());
        assert forall|i: int| 0 <= i < r.len() implies plan_theme_ok(configs, #[trigger] r[i]) by {
            if i < r.len() - 1 {
                assert(r[i] == insert_sorted(init, x)[i]);
            }
        }
    } else if s.len() > 0 {
        let r = s.push(x);
        assert forall|i: int| 0 <= i < r.len() implies plan_theme_ok(configs, #[trigger] r[i]) by {
            if i < s.len() {
                assert(r[i] == s[i]);
            }
        }
    }
}

proof fn lemma_sort_plans_keeps(configs: Seq<GroupConfig>, s: Seq<GroupPlan>)
    requires
        forall|i: int| 0 <= i < s.len() ==> plan_theme_ok(configs, #[trigger] s[i]),
    ensures
        forall|i: int| 0 <= i < sort_plans(s).len() ==> plan_theme_ok(configs, #[trigger] sort_plans(s)[i]),
    decreases s.len(),
{
    if s.len() > 0 {
        let init = s.drop_last();
        assert forall|i: int| 0 <= i < init.len() implies plan_theme_ok(configs, #[trigger] init[i]) by {
            assert(init[i] == s[i]);
        }
        lemma_sort_plans_keeps(configs, init);
        lemma_insert_sorted_keeps(configs, sort_plans(init), s.last());
    }
}

proof fn lemma_named_plans_themes(
    tabs: Seq<TabEntry>,
    configs: Seq<GroupConfig>,
    manual: Map<(Seq<char>, usize), String>,
    collapsed: Map<Seq<char>, ()>,
    show_empty: bool,
    n: int,
)
    requires
        n <= configs.len(),
    ensures
        forall|i: int|
            0 <= i < named_plans(tabs, configs, manual, collapsed, show_empty, n).len() ==> plan_theme_ok(
                configs,
                #[trigger] named_plans(tabs, configs, manual, collapsed, show_empty, n)[i],
            ),
    decreases n,
{
    if n > 0 {
        lemma_named_plans_themes(tabs, configs, manual, collapsed, show_empty, n - 1);
        let rest = named_plans(tabs, configs, manual, collapsed, show_empty, n - 1);
        let r = named_plans(tabs, configs, manual, collapsed, show_empty, n);
        assert forall|i: int| 0 <= i < r.len() implies plan_theme_ok(configs, #[trigger] r[i]) by {
            if i < rest.len() {
                assert(r[i] == rest[i]);
            }
        }
    }
}

/// Every group shown carries the theme it is configured with: `Default`
/// the default theme, and any other group the theme of a configured group
/// of its name.
pub proof fn lemma_groups_carry_config_theme(
    gs: Seq<GroupedTabs>,
    tabs: Seq<TabEntry>,
    configs: Seq<GroupConfig>,
    manual: Map<(Seq<char>, usize), String>,
    collapsed: Map<Seq<char>, ()>,
    show_empty: bool,
)
    requires
        all_grouped_match(gs, group_plan(tabs, configs, manual, collapsed, show_empty), configs),
    ensures
        forall|i: int|
            0 <= i < gs.len() ==> if (#[trigger] gs[i]).group_name@ == "Default"@ {
                gs[i].theme.is_default()
            } else {
                exists|j: int|
                    0 <= j < configs.len() && configs[j].name@ == gs[i].group_name@ && gs[i].theme
                        == #[trigger] configs[j].theme
            },
{
    let named = named_plans(tabs, configs, manual, collapsed, show_empty, configs.len() as int);
    let d = default_plan(tabs, configs, manual, collapsed, show_empty);
    let plan = group_plan(tabs, configs, manual, collapsed, show_empty);
    lemma_named_plans_themes(tabs, configs, manual, collapsed, show_empty, configs.len() as int);
    lemma_sort_plans_keeps(configs, named);
    assert forall|i: int| 0 <= i < plan.len() implies plan_theme_ok(configs, #[trigger] plan[i]) by {
        if i < d.len() {
            assert(plan[i] == d[i]);
        } else {
            assert(plan[i] == sort_plans(named)[i - d.len()]);
        }
    }
    assert forall|i: int| 0 <= i < gs.len() implies if (#[trigger] gs[i]).group_name@ == "Default"@ {
        gs[i].theme.is_default()
    } else {
        exists|j: int|
            0 <= j < configs.len() && configs[j].name@ == gs[i].group_name@ && gs[i].theme
                == #[trigger] configs[j].theme
    } by {
        assert(grouped_matches(gs[i], plan[i], configs));
        assert(plan_theme_ok(configs, plan[i]));
        if gs[i].group_name@ != "Default"@ {
            let j = plan[i].theme->0;
            assert(configs[j].name@ == gs[i].group_name@ && gs[i].theme == configs[j].theme);
        }
    }
}

/// The first matching pattern wins: a tab whose name the pattern of group
/// `i` matches, and no pattern before it, goes to group `i` unless it was
/// placed by hand.
pub proof fn lemma_first_match_wins(configs: Seq<GroupConfig>, name: Seq<char>, i: int)
    requires
        0 <= i < configs.len(),
        pattern_hits(configs[i], name),
        forall|j: int| 0 <= j < i ==> !pattern_hits(#[trigger] configs[j], name),
    ensures
        matched_group(configs, name) == Some(configs[i].name@),
    decreases i,
{
    if i > 0 {
        let rest = configs.drop_first();
        assert forall|j: int| 0 <= j < i - 1 implies !pattern_hits(#[trigger] rest[j], name) by {
            assert(rest[j] == configs[j + 1]);
        }
        assert(!pattern_hits(configs[0], name));
        lemma_first_match_wins(rest, name, i - 1);
    }
}

/// The colour a group's shades are derived from: its own background, or
/// else the palette colour of its place among the groups.
pub fn theme_base(theme: &ThemeConfig, group_index: usize) -> (r: String)
    ensures
        r@ == (if theme.bg@.len() == 0 {
            crate::colors::palette_color((group_index % 12) as nat)
        } else {
            theme.bg@
        }),
{
    if theme.bg.as_str().is_empty() {
        crate::colors::get_default_group_color(group_index).to_owned()
    } else {
        theme.bg.clone()
    }
}

/// A group theme with its gaps filled: the derived background `bg`, its
/// own text colour unless empty, its own active colours where set, the
/// derived ones otherwise, and its icon.
pub fn fill_theme(theme: &ThemeConfig, bg: String, fg: String, active_bg: String, active_fg: String) -> (r: ThemeConfig)
    ensures
        r.bg == bg,
        r.fg == (if theme.fg@.len() == 0 {
            fg
        } else {
            theme.fg
        }),
        r.active_bg == Some(
            match theme.active_bg {
                Some(a) => a,
                None => active_bg,
            },
        ),
        r.active_fg == Some(
            match theme.active_fg {
                Some(a) => a,
                None => active_fg,
            },
        ),
        r.icon == theme.icon,
{
    ThemeConfig {
        bg,
        fg: if theme.fg.as_str().is_empty() {
            fg
        } else {
            theme.fg.clone()
        },
        active_bg: Some(
            match &theme.active_bg {
                Some(a) => a.clone(),
                None => active_bg,
            },
        ),
        active_fg: Some(
            match &theme.active_fg {
                Some(a) => a.clone(),
                None => active_fg,
            },
        ),
        icon: crate::config::clone_opt_string(&theme.icon),
    }
}

} // verus!
