//! Selection and inventory state: the synchronous operations the
//! presentation layer calls back into — toggling selections, publishing a
//! scan result, and reconciling the inventory after a deletion attempt.

use vstd::prelude::*;
use vstd::seq_lib::*;
use crate::inventory::{build_inventory, inventory_spec};
use crate::scan::PluginScanner;
use crate::strutil::{chars_eq, lemma_filter_push, str_chars};
use crate::types::{group_models, models, GroupModel, ManufacturerGroup, Plugin};

verus! {

/// The views of a vector of strings.
pub open spec fn views_of(s: Seq<String>) -> Seq<Seq<char>> {
    s.map_values(|x: String| x@)
}

/// No two strings of the vector read the same.
pub open spec fn distinct_views(s: Seq<String>) -> bool {
    forall|i: int, j: int|
        #![trigger s[i]@, s[j]@]
        0 <= i < j < s.len() ==> s[i]@ != s[j]@
}

/// The set of strings a vector holds.
pub open spec fn str_set(s: Seq<String>) -> Set<Seq<char>> {
    views_of(s).to_set()
}

/// The paths of a group's records.
pub open spec fn paths_of(g: GroupModel) -> Set<Seq<char>> {
    g.plugins.map_values(|p: crate::types::PluginModel| p.path).to_set()
}

/// The first group carrying the given display name, if any.
pub open spec fn find_group(inv: Seq<GroupModel>, m: Seq<char>) -> Option<GroupModel>
    decreases inv.len(),
{
    if inv.len() == 0 {
        None
    } else if inv[0].manufacturer == m {
        Some(inv[0])
    } else {
        find_group(inv.drop_first(), m)
    }
}

/// Every record of the group is selected.
pub open spec fn all_selected(g: GroupModel, sel: Set<Seq<char>>) -> bool {
    forall|i: int| 0 <= i < g.plugins.len() ==> sel.contains(#[trigger] g.plugins[i].path)
}

/// Character-wise equality of two string slices.
pub(crate) fn str_eq(a: &str, b: &str) -> (r: bool)
    ensures
        r == (a@ == b@),
{
    let ac = str_chars(a);
    let bc = str_chars(b);
    chars_eq(&ac, &bc)
}

/// Does the vector hold a string reading `x`?
pub(crate) fn contains_str(v: &Vec<String>, x: &str) -> (r: bool)
    ensures
        r == str_set(v@).contains(x@),
{
    let mut j: usize = 0;
    while j < v.len()
        invariant
            j <= v@.len(),
            forall|i: int| 0 <= i < j ==> v@[i]@ != x@,
        decreases v.len() - j,
    {
        if str_eq(v[j].as_str(), x) {
            proof {
                assert(views_of(v@)[j as int] == x@);
            }
            return true;
        }
        j = j + 1;
    }
    proof {
        assert forall|i: int| 0 <= i < views_of(v@).len() implies views_of(v@)[i] != x@ by {}
    }
    false
}

/// Removes the string reading `x`, if present.
fn remove_str(v: &mut Vec<String>, x: &str)
    requires
        distinct_views(old(v)@),
    ensures
        distinct_views(final(v)@),
        str_set(final(v)@) == str_set(old(v)@).remove(x@),
{
    let mut j: usize = 0;
    while j < v.len()
        invariant
            j <= v@.len(),
            v@ == old(v)@,
            distinct_views(v@),
            forall|i: int| 0 <= i < j ==> v@[i]@ != x@,
        decreases v.len() - j,
    {
        if str_eq(v[j].as_str(), x) {
            let ghost pre = v@;
            v.remove(j);
            proof {
                let pv = views_of(pre);
                let nv = views_of(v@);
                pre.remove_ensures(j as int);
                assert(distinct_views(pre));
                assert(pre[j as int]@ == x@);
                assert forall|a: int, b: int| 0 <= a < b < v@.len() implies v@[a]@ != v@[b]@ by {
                    let pa: int = if a < j { a } else { a + 1 };
                    let pb: int = if b < j { b } else { b + 1 };
                    assert(v@[a] == pre[pa]);
                    assert(v@[b] == pre[pb]);
                    assert(pre[pa]@ != pre[pb]@);
                }
                assert forall|y: Seq<char>|
                    str_set(v@).contains(y) implies str_set(pre).remove(x@).contains(y) by {
                    let i = choose|i: int| 0 <= i < nv.len() && nv[i] == y;
                    let pi: int = if i < j { i } else { i + 1 };
                    assert(v@[i] == pre[pi]);
                    assert(pv[pi] == y);
                    assert(pi != j);
                    if pi < j {
                        assert(pre[pi]@ != pre[j as int]@);
                    } else {
                        assert(pre[j as int]@ != pre[pi]@);
                    }
                    assert(y != x@);
                }
                assert forall|y: Seq<char>|
                    str_set(pre).remove(x@).contains(y) implies str_set(v@).contains(y) by {
                    let i = choose|i: int| 0 <= i < pv.len() && pv[i] == y;
                    assert(y != x@);
                    assert(i != j);
                    if i < j {
                        assert(nv[i] == y);
                    } else {
                        assert(nv[i - 1] == y);
                    }
                }
                assert(str_set(v@) =~= str_set(pre).remove(x@));
            }
            return ;
        }
        j = j + 1;
    }
    proof {
        assert forall|y: Seq<char>|
            str_set(v@).contains(y) == str_set(old(v)@).remove(x@).contains(y) by {
            assert forall|i: int| 0 <= i < views_of(v@).len() implies views_of(v@)[i] != x@ by {}
        }
        assert(str_set(v@) =~= str_set(old(v)@).remove(x@));
    }
}

/// Adds the string `x` unless one reading the same is already there.
fn insert_str(v: &mut Vec<String>, x: String)
    requires
        distinct_views(old(v)@),
    ensures
        distinct_views(final(v)@),
        str_set(final(v)@) == str_set(old(v)@).insert(x@),
{
    if contains_str(v, x.as_str()) {
        proof {
            assert(str_set(v@) =~= str_set(v@).insert(x@));
        }
        return ;
    }
    let ghost pre = v@;
    v.push(x);
    proof {
        assert forall|y: Seq<char>|
            str_set(v@).contains(y) == str_set(pre).insert(x@).contains(y) by {
            if str_set(v@).contains(y) {
                let i = choose|i: int| 0 <= i < views_of(v@).len() && views_of(v@)[i] == y;
                if i < pre.len() {
                    assert(views_of(pre)[i] == y);
                }
            }
            if str_set(pre).contains(y) {
                let i = choose|i: int| 0 <= i < views_of(pre).len() && views_of(pre)[i] == y;
                assert(views_of(v@)[i] == y);
            }
            if y == x@ {
                assert(views_of(v@)[v@.len() - 1] == y);
            }
        }
        assert(str_set(v@) =~= str_set(pre).insert(x@));
        assert forall|i: int, j: int| 0 <= i < j < v@.len() implies v@[i]@ != v@[j]@ by {
            if j == v@.len() - 1 {
                assert(views_of(pre)[i] == pre[i]@);
            }
        }
    }
}

/// A pushed element joins the sequence's set.
proof fn lemma_to_set_push<A>(s: Seq<A>, x: A)
    ensures
        s.push(x).to_set() == s.to_set().insert(x),
{
    assert forall|y: A| s.push(x).to_set().contains(y) implies s.to_set().insert(x).contains(
        y,
    ) by {
        let i = choose|i: int| 0 <= i < s.push(x).len() && s.push(x)[i] == y;
        if i < s.len() {
            assert(s[i] == y);
        }
    }
    assert forall|y: A| s.to_set().insert(x).contains(y) implies s.push(x).to_set().contains(
        y,
    ) by {
        if s.to_set().contains(y) {
            let i = choose|i: int| 0 <= i < s.len() && s[i] == y;
            assert(s.push(x)[i] == y);
        } else {
            assert(s.push(x)[s.len() as int] == y);
        }
    }
    assert(s.push(x).to_set() =~= s.to_set().insert(x));
}

proof fn lemma_find_group_skip(inv: Seq<GroupModel>, m: Seq<char>, i: int)
    requires
        0 <= i <= inv.len(),
        forall|j: int| 0 <= j < i ==> inv[j].manufacturer != m,
    ensures
        find_group(inv, m) == find_group(inv.skip(i), m),
    decreases i,
{
    if i > 0 {
        assert(inv[0].manufacturer != m);
        lemma_find_group_skip(inv.drop_first(), m, i - 1);
        assert(inv.drop_first().skip(i - 1) =~= inv.skip(i));
    } else {
        assert(inv.skip(0) =~= inv);
    }
}

/// The position of the group named `m`, if any.
fn find_group_exec(plugins: &Vec<ManufacturerGroup>, m: &str) -> (r: Option<usize>)
    ensures
        match r {
            Some(i) => i < plugins@.len() && find_group(group_models(plugins@), m@) == Some(
                plugins@[i as int]@,
            ) && plugins@[i as int]@.manufacturer == m@,
            None => find_group(group_models(plugins@), m@).is_none(),
        },
{
    let ghost inv = group_models(plugins@);
    let mut i: usize = 0;
    while i < plugins.len()
        invariant
            i <= plugins@.len(),
            inv == group_models(plugins@),
            inv.len() == plugins@.len(),
            forall|j: int| 0 <= j < plugins@.len() ==> inv[j] == plugins@[j]@,
            forall|j: int| 0 <= j < i ==> inv[j].manufacturer != m@,
        decreases plugins.len() - i,
    {
        if str_eq(plugins[i].manufacturer.as_str(), m) {
            proof {
                lemma_find_group_skip(inv, m@, i as int);
                assert(inv.skip(i as int)[0] == inv[i as int]);
            }
            return Some(i);
        }
        i = i + 1;
    }
    proof {
        lemma_find_group_skip(inv, m@, plugins@.len() as int);
        assert(inv.skip(inv.len() as int) =~= Seq::<GroupModel>::empty());
    }
    None
}

/// Is every record of the group selected?
fn all_selected_exec(g: &ManufacturerGroup, sel: &Vec<String>) -> (r: bool)
    ensures
        r == all_selected(g@, str_set(sel@)),
{
    let mut i: usize = 0;
    while i < g.plugins.len()
        invariant
            i <= g.plugins@.len(),
            forall|j: int|
                0 <= j < i ==> str_set(sel@).contains(#[trigger] g@.plugins[j].path),
        decreases g.plugins.len() - i,
    {
        if !contains_str(sel, g.plugins[i].path.as_str()) {
            proof {
                assert(g@.plugins[i as int].path == g.plugins@[i as int]@.path);
                assert(!all_selected(g@, str_set(sel@)));
            }
            return false;
        }
        i = i + 1;
    }
    true
}

/// The group with the deleted records dropped.
pub open spec fn prune_group(g: GroupModel, dead: Set<Seq<char>>) -> GroupModel {
    GroupModel {
        manufacturer: g.manufacturer,
        plugins: g.plugins.filter(|p: crate::types::PluginModel| !dead.contains(p.path)),
    }
}

/// The inventory after a deletion: every group pruned of its deleted
/// records, and groups left with none dropped entirely.
pub open spec fn prune_inventory(inv: Seq<GroupModel>, dead: Set<Seq<char>>) -> Seq<GroupModel> {
    inv.map_values(|g: GroupModel| prune_group(g, dead)).filter(
        |g: GroupModel| g.plugins.len() > 0,
    )
}

/// The display names of the groups that lost at least one record.
pub open spec fn affected_names(inv: Seq<GroupModel>, dead: Set<Seq<char>>) -> Set<Seq<char>>
    decreases inv.len(),
{
    if inv.len() == 0 {
        Set::empty()
    } else {
        let rest = affected_names(inv.drop_last(), dead);
        if prune_group(inv.last(), dead).plugins.len() < inv.last().plugins.len() {
            rest.insert(inv.last().manufacturer)
        } else {
            rest
        }
    }
}

/// A filtered sequence holds exactly the original's elements that satisfy
/// the predicate.
proof fn lemma_filter_to_set<A>(s: Seq<A>, p: spec_fn(A) -> bool)
    ensures
        forall|y: A| s.filter(p).contains(y) <==> (s.contains(y) && p(y)),
    decreases s.len(),
{
    if s.len() > 0 {
        lemma_filter_to_set(s.drop_last(), p);
        lemma_filter_push(s.drop_last(), s.last(), p);
        assert(s.drop_last().push(s.last()) =~= s);
        assert forall|y: A| s.filter(p).contains(y) implies s.contains(y) && p(y) by {
            let f = s.filter(p);
            let fd = s.drop_last().filter(p);
            if p(s.last()) {
                let i = choose|i: int| 0 <= i < f.len() && f[i] == y;
                if i < fd.len() {
                    assert(fd.contains(y));
                } else {
                    assert(y == s.last());
                    assert(s[s.len() - 1] == y);
                }
            } else {
                assert(fd.contains(y));
            }
            if s.drop_last().contains(y) {
                let i = choose|i: int| 0 <= i < s.drop_last().len() && s.drop_last()[i] == y;
                assert(s[i] == y);
            }
        }
        assert forall|y: A| s.contains(y) && p(y) implies s.filter(p).contains(y) by {
            let i = choose|i: int| 0 <= i < s.len() && s[i] == y;
            if i < s.len() - 1 {
                assert(s.drop_last()[i] == y);
                assert(s.drop_last().contains(y));
                assert(s.drop_last().filter(p).contains(y));
                let fi = choose|fi: int|
                    0 <= fi < s.drop_last().filter(p).len() && s.drop_last().filter(p)[fi] == y;
                assert(s.filter(p)[fi] == y);
            } else {
                assert(y == s.last());
                assert(s.filter(p).last() == y);
            }
        }
    }
}

/// Filtering keeps a duplicate-free sequence duplicate-free.
proof fn lemma_filter_distinct<A>(s: Seq<A>, p: spec_fn(A) -> bool)
    requires
        forall|i: int, j: int| #![trigger s[i], s[j]] 0 <= i < j < s.len() ==> s[i] != s[j],
    ensures
        forall|i: int, j: int|
            #![trigger s.filter(p)[i], s.filter(p)[j]]
            0 <= i < j < s.filter(p).len() ==> s.filter(p)[i] != s.filter(p)[j],
    decreases s.len(),
{
    reveal(Seq::filter);
    if s.len() > 0 {
        let dl = s.drop_last();
        let fd = dl.filter(p);
        lemma_filter_distinct(dl, p);
        lemma_filter_to_set(dl, p);
        assert forall|i: int, j: int|
            #![trigger s.filter(p)[i], s.filter(p)[j]]
            0 <= i < j < s.filter(p).len() implies s.filter(p)[i] != s.filter(p)[j] by {
            if p(s.last()) {
                assert(s.filter(p) == fd.push(s.last()));
                if j < fd.len() {
                    assert(fd[i] != fd[j]);
                } else {
                    assert(s.filter(p)[j] == s.last());
                    assert(s.filter(p)[i] == fd[i]);
                    if fd[i] == s.last() {
                        assert(fd.contains(fd[i]));
                        assert(dl.contains(s.last()));
                        let w = choose|w: int| 0 <= w < dl.len() && dl[w] == s.last();
                        assert(s[w] == s[s.len() - 1]);
                        assert(false);
                    }
                }
            } else {
                assert(s.filter(p) == fd);
                assert(fd[i] != fd[j]);
            }
        }
    }
}

/// In-memory application state: the grouped inventory, the user's current
/// selection, and the flags the presentation layer renders.
pub struct PluginManager {
    /// The inventory: groups sorted by display name.
    pub plugins: Vec<ManufacturerGroup>,
    /// Paths of the selected records; no two read the same.
    pub selected_plugins: Vec<String>,
    /// Display names of fully selected manufacturers; no two read the same.
    pub selected_manufacturers: Vec<String>,
    /// A scan is in flight.
    pub scanning: bool,
    /// The deletion confirmation dialog is open.
    pub show_confirmation: bool,
    pub scanner: PluginScanner,
    /// The user-facing message of the last failed deletion, until dismissed.
    pub deletion_error: Option<String>,
}

impl PluginManager {
    /// Selections hold no duplicate entries.
    pub open spec fn wf(&self) -> bool {
        distinct_views(self.selected_plugins@) && distinct_views(self.selected_manufacturers@)
    }

    /// The set of selected record paths.
    pub open spec fn sel_paths(&self) -> Set<Seq<char>> {
        str_set(self.selected_plugins@)
    }

    /// The set of selected manufacturer display names.
    pub open spec fn sel_manus(&self) -> Set<Seq<char>> {
        str_set(self.selected_manufacturers@)
    }

    /// The inventory as a mathematical value.
    pub open spec fn inv(&self) -> Seq<GroupModel> {
        group_models(self.plugins@)
    }

    /// A fresh manager: empty inventory, empty selection, no error.
    pub fn new() -> (r: Self)
        ensures
            r.wf(),
            r.inv() == Seq::<GroupModel>::empty(),
            r.sel_paths() == Set::<Seq<char>>::empty(),
            r.sel_manus() == Set::<Seq<char>>::empty(),
            !r.scanning,
            !r.show_confirmation,
            r.deletion_error.is_none(),
    {
        let r = PluginManager {
            plugins: Vec::new(),
            selected_plugins: Vec::new(),
            selected_manufacturers: Vec::new(),
            scanning: false,
            show_confirmation: false,
            scanner: PluginScanner::new(),
            deletion_error: None,
        };
        proof {
            assert(group_models(r.plugins@) =~= Seq::<GroupModel>::empty());
            assert(str_set(r.selected_plugins@) =~= Set::<Seq<char>>::empty());
            assert(str_set(r.selected_manufacturers@) =~= Set::<Seq<char>>::empty());
        }
        r
    }

    /// Toggles one record's selection, then re-derives whether its
    /// manufacturer counts as fully selected: the manufacturer is selected
    /// afterwards exactly when every record of its group is.
    pub fn toggle_plugin(&mut self, plugin: &Plugin)
        requires
            old(self).wf(),
        ensures
            final(self).wf(),
            final(self).plugins@ == old(self).plugins@,
            final(self).scanning == old(self).scanning,
            final(self).show_confirmation == old(self).show_confirmation,
            final(self).deletion_error == old(self).deletion_error,
            final(self).sel_paths() == if old(self).sel_paths().contains(plugin@.path) {
                old(self).sel_paths().remove(plugin@.path)
            } else {
                old(self).sel_paths().insert(plugin@.path)
            },
            match find_group(old(self).inv(), plugin@.manufacturer) {
                None => final(self).sel_manus() == old(self).sel_manus(),
                Some(g) => final(self).sel_manus() == if all_selected(
                    g,
                    final(self).sel_paths(),
                ) {
                    old(self).sel_manus().insert(plugin@.manufacturer)
                } else {
                    old(self).sel_manus().remove(plugin@.manufacturer)
                },
            },
    {
        if contains_str(&self.selected_plugins, plugin.path.as_str()) {
            remove_str(&mut self.selected_plugins, plugin.path.as_str());
        } else {
            insert_str(&mut self.selected_plugins, plugin.path.clone());
        }
        match find_group_exec(&self.plugins, plugin.manufacturer.as_str()) {
            Some(idx) => {
                let all = all_selected_exec(&self.plugins[idx], &self.selected_plugins);
                if all {
                    insert_str(&mut self.selected_manufacturers, plugin.manufacturer.clone());
                } else {
                    remove_str(&mut self.selected_manufacturers, plugin.manufacturer.as_str());
                }
            },
            None => {},
        }
    }

    /// Toggles a whole manufacturer: selecting it selects every record of
    /// its group, deselecting it deselects them all.
    pub fn toggle_manufacturer(&mut self, manufacturer: &str)
        requires
            old(self).wf(),
        ensures
            final(self).wf(),
            final(self).plugins@ == old(self).plugins@,
            final(self).scanning == old(self).scanning,
            final(self).show_confirmation == old(self).show_confirmation,
            final(self).deletion_error == old(self).deletion_error,
            final(self).sel_manus() == if old(self).sel_manus().contains(manufacturer@) {
                old(self).sel_manus().remove(manufacturer@)
            } else {
                old(self).sel_manus().insert(manufacturer@)
            },
            match find_group(old(self).inv(), manufacturer@) {
                None => final(self).sel_paths() == old(self).sel_paths(),
                Some(g) => final(self).sel_paths() == if old(self).sel_manus().contains(
                    manufacturer@,
                ) {
                    old(self).sel_paths().difference(paths_of(g))
                } else {
                    old(self).sel_paths().union(paths_of(g))
                },
            },
    {
        let ghost base = str_set(self.selected_plugins@);
        let ghost mview = manufacturer@;
        if contains_str(&self.selected_manufacturers, manufacturer) {
            remove_str(&mut self.selected_manufacturers, manufacturer);
            let ghost manus_after = self.selected_manufacturers@;
            match find_group_exec(&self.plugins, manufacturer) {
                Some(idx) => {
                    let ghost g = self.plugins@[idx as int]@;
                    let ghost pseq = g.plugins.map_values(
                        |p: crate::types::PluginModel| p.path,
                    );
                    let n = self.plugins[idx].plugins.len();
                    let mut i: usize = 0;
                    while i < n
                        invariant
                            i <= n,
                            idx < self.plugins@.len(),
                            self.plugins@ == old(self).plugins@,
                            self.selected_manufacturers@ == manus_after,
                            distinct_views(self.selected_manufacturers@),
                            str_set(manus_after) == (if str_set(old(self).selected_manufacturers@).contains(mview) { str_set(old(self).selected_manufacturers@).remove(mview) } else { str_set(old(self).selected_manufacturers@).insert(mview) }),
                            self.scanning == old(self).scanning,
                            self.show_confirmation == old(self).show_confirmation,
                            self.deletion_error == old(self).deletion_error,
                            self.scanner == old(self).scanner,
                            g == self.plugins@[idx as int]@,
                            pseq == g.plugins.map_values(|p: crate::types::PluginModel| p.path),
                            n == g.plugins.len(),
                            distinct_views(self.selected_plugins@),
                            str_set(self.selected_plugins@) == base.difference(
                                pseq.subrange(0, i as int).to_set(),
                            ),
                        decreases n - i,
                    {
                        proof {
                            assert(g.plugins[i as int].path == self.plugins@[idx as int].plugins@[
                                i as int
                            ]@.path);
                        }
                        remove_str(
                            &mut self.selected_plugins,
                            self.plugins[idx].plugins[i].path.as_str(),
                        );
                        proof {
                            let pre = pseq.subrange(0, i as int);
                            let pre1 = pseq.subrange(0, i + 1 as int);
                            assert(pre1 =~= pre.push(pseq[i as int]));
                            lemma_to_set_push(pre, pseq[i as int]);
                            assert(base.difference(pre.to_set()).remove(pseq[i as int])
                                =~= base.difference(pre1.to_set()));
                        }
                        i = i + 1;
                    }
                    proof {
                        assert(pseq.subrange(0, n as int) =~= pseq);
                        assert(str_set(self.selected_plugins@) == base.difference(
                            paths_of(g),
                        ));
                    }
                },
                None => {},
            }
        } else {
            insert_str(
                &mut self.selected_manufacturers,
                crate::strutil::chars_string(&str_chars(manufacturer)),
            );
            let ghost manus_after = self.selected_manufacturers@;
            match find_group_exec(&self.plugins, manufacturer) {
                Some(idx) => {
                    let ghost g = self.plugins@[idx as int]@;
                    let ghost pseq = g.plugins.map_values(
                        |p: crate::types::PluginModel| p.path,
                    );
                    let n = self.plugins[idx].plugins.len();
                    let mut i: usize = 0;
                    while i < n
                        invariant
                            i <= n,
                            idx < self.plugins@.len(),
                            self.plugins@ == old(self).plugins@,
                            self.selected_manufacturers@ == manus_after,
                            distinct_views(self.selected_manufacturers@),
                            str_set(manus_after) == (if str_set(old(self).selected_manufacturers@).contains(mview) { str_set(old(self).selected_manufacturers@).remove(mview) } else { str_set(old(self).selected_manufacturers@).insert(mview) }),
                            self.scanning == old(self).scanning,
                            self.show_confirmation == old(self).show_confirmation,
                            self.deletion_error == old(self).deletion_error,
                            self.scanner == old(self).scanner,
                            g == self.plugins@[idx as int]@,
                            pseq == g.plugins.map_values(|p: crate::types::PluginModel| p.path),
                            n == g.plugins.len(),
                            distinct_views(self.selected_plugins@),
                            str_set(self.selected_plugins@) == base.union(
                                pseq.subrange(0, i as int).to_set(),
                            ),
                        decreases n - i,
                    {
                        proof {
                            assert(g.plugins[i as int].path == self.plugins@[idx as int].plugins@[
                                i as int
                            ]@.path);
                        }
                        insert_str(
                            &mut self.selected_plugins,
                            self.plugins[idx].plugins[i].path.clone(),
                        );
                        proof {
                            let pre = pseq.subrange(0, i as int);
                            let pre1 = pseq.subrange(0, i + 1 as int);
                            assert(pre1 =~= pre.push(pseq[i as int]));
                            lemma_to_set_push(pre, pseq[i as int]);
                            assert(base.union(pre.to_set()).insert(pseq[i as int]) =~= base.union(
                                pre1.to_set(),
                            ));
                        }
                        i = i + 1;
                    }
                    proof {
                        assert(pseq.subrange(0, n as int) =~= pseq);
                        assert(str_set(self.selected_plugins@) == base.union(paths_of(g)));
                    }
                },
                None => {},
            }
        }
    }

    /// Publishes a finished scan: the inventory is rebuilt from the given
    /// records, the selection and any pending deletion error are cleared.
    pub fn apply_scan_results(&mut self, records: Vec<Plugin>)
        ensures
            final(self).wf(),
            group_models(final(self).plugins@) == inventory_spec(models(records@)),
            final(self).selected_plugins@.len() == 0,
            final(self).selected_manufacturers@.len() == 0,
            final(self).sel_paths() == Set::<Seq<char>>::empty(),
            final(self).sel_manus() == Set::<Seq<char>>::empty(),
            final(self).deletion_error.is_none(),
            !final(self).scanning,
            final(self).show_confirmation == old(self).show_confirmation,
    {
        self.selected_plugins = Vec::new();
        self.selected_manufacturers = Vec::new();
        self.deletion_error = None;
        self.plugins = build_inventory(records);
        self.scanning = false;
        proof {
            assert(str_set(self.selected_plugins@) =~= Set::<Seq<char>>::empty());
            assert(str_set(self.selected_manufacturers@) =~= Set::<Seq<char>>::empty());
        }
    }

    /// A snapshot of the selected paths, for handing to the deletion
    /// primitive.
    pub fn selected_paths(&self) -> (r: Vec<String>)
        ensures
            r@.len() == self.selected_plugins@.len(),
            forall|i: int|
                0 <= i < r@.len() ==> #[trigger] r@[i]@ == self.selected_plugins@[i]@,
    {
        let mut r: Vec<String> = Vec::new();
        let mut i: usize = 0;
        while i < self.selected_plugins.len()
            invariant
                i <= self.selected_plugins@.len(),
                r@.len() == i,
                forall|j: int|
                    0 <= j < i ==> #[trigger] r@[j]@ == self.selected_plugins@[j]@,
            decreases self.selected_plugins.len() - i,
        {
            r.push(self.selected_plugins[i].clone());
            i = i + 1;
        }
        r
    }

    /// Dismisses the user-facing deletion error.
    pub fn dismiss_deletion_error(&mut self)
        ensures
            final(self).deletion_error.is_none(),
            final(self).plugins@ == old(self).plugins@,
            final(self).selected_plugins@ == old(self).selected_plugins@,
            final(self).selected_manufacturers@ == old(self).selected_manufacturers@,
            final(self).scanning == old(self).scanning,
            final(self).show_confirmation == old(self).show_confirmation,
    {
        self.deletion_error = None;
    }

    /// Reconciles state after a deletion attempt: `attempted` is the
    /// snapshot of paths handed to the deletion primitive, `deleted` the
    /// attempted paths that no longer exist on disk afterwards, and
    /// `op_failed` says the primitive reported failure. Exactly the
    /// deleted records leave the inventory, groups left empty are
    /// dropped, manufacturers that lost a record are deselected, the
    /// selection retains none of the attempted or deleted paths, and the
    /// user-facing error is raised exactly when the primitive failed or
    /// some attempted path survived.
    pub fn reconcile_deletion(
        &mut self,
        attempted: &Vec<String>,
        deleted: &Vec<String>,
        op_failed: bool,
    )
        requires
            old(self).wf(),
        ensures
            final(self).wf(),
            final(self).scanning == old(self).scanning,
            final(self).show_confirmation == old(self).show_confirmation,
            (op_failed || deleted@.len() < attempted@.len())
                ==> final(self).deletion_error.is_some(),
            !(op_failed || deleted@.len() < attempted@.len()) ==> final(self).deletion_error
                == old(self).deletion_error,
            deleted@.len() == 0 ==> final(self).plugins@ == old(self).plugins@
                && final(self).selected_plugins@ == old(self).selected_plugins@
                && final(self).selected_manufacturers@ == old(self).selected_manufacturers@,
            deleted@.len() > 0 ==> group_models(final(self).plugins@) == prune_inventory(
                old(self).inv(),
                str_set(deleted@),
            ),
            deleted@.len() > 0 ==> final(self).sel_paths() == old(self).sel_paths().difference(
                str_set(attempted@).union(str_set(deleted@)),
            ),
            deleted@.len() > 0 ==> final(self).sel_manus() == old(self).sel_manus().difference(
                affected_names(old(self).inv(), str_set(deleted@)),
            ),
    {
        let failed = op_failed || deleted.len() < attempted.len();
        if failed {
            self.deletion_error = Some(
                <String as vstd::string::StringExecFns>::from_str(
                    "Some or all plugins could not be moved to bin.\nThis can happen on Windows due to file permissions.\nPlease try running this application as an administrator.",
                ),
            );
        }
        if deleted.len() == 0 {
            return ;
        }
        let ghost dead = str_set(deleted@);
        let ghost gone = str_set(attempted@).union(str_set(deleted@));
        let ghost inv0 = self.inv();
        let ghost err1 = self.deletion_error;

        // Prune the inventory group by group, noting which groups lost
        // records.
        let mut newg: Vec<ManufacturerGroup> = Vec::new();
        let mut affected: Vec<String> = Vec::new();
        let ghost mut c: int = 0;
        while self.plugins.len() > 0
            invariant
                0 <= c,
                c + self.plugins@.len() == inv0.len(),
                inv0.len() == old(self).plugins@.len(),
                forall|a: int|
                    0 <= a < self.plugins@.len() ==> #[trigger] self.plugins@[a]
                        == old(self).plugins@[a + c],
                forall|a: int| 0 <= a < inv0.len() ==> #[trigger] inv0[a] == old(self).plugins@[a]@,
                group_models(newg@) == prune_inventory(inv0.subrange(0, c), dead),
                str_set(affected@) == affected_names(inv0.subrange(0, c), dead),
                dead == str_set(deleted@),
                self.selected_plugins@ == old(self).selected_plugins@,
                self.selected_manufacturers@ == old(self).selected_manufacturers@,
                self.scanning == old(self).scanning,
                self.show_confirmation == old(self).show_confirmation,
                self.deletion_error == err1,
            decreases self.plugins.len(),
        {
            let g = self.plugins.remove(0);
            let ghost gm = g@;
            let mut kept: Vec<Plugin> = Vec::new();
            let mut j: usize = 0;
            while j < g.plugins.len()
                invariant
                    j <= g.plugins@.len(),
                    gm == g@,
                    dead == str_set(deleted@),
                    models(kept@) == models(g.plugins@.subrange(0, j as int)).filter(
                        |p: crate::types::PluginModel| !dead.contains(p.path),
                    ),
                decreases g.plugins.len() - j,
            {
                proof {
                    let pre = models(g.plugins@.subrange(0, j as int));
                    let pre1 = models(g.plugins@.subrange(0, j + 1 as int));
                    assert(pre1 =~= pre.push(g.plugins@[j as int]@));
                    lemma_filter_push(
                        pre,
                        g.plugins@[j as int]@,
                        |p: crate::types::PluginModel| !dead.contains(p.path),
                    );
                }
                if !contains_str(deleted, g.plugins[j].path.as_str()) {
                    kept.push(g.plugins[j].clone());
                }
                j = j + 1;
            }
            proof {
                assert(g.plugins@.subrange(0, g.plugins@.len() as int) =~= g.plugins@);
                assert(models(kept@) == prune_group(gm, dead).plugins);
            }
            let lost = kept.len() < g.plugins.len();
            let ghost aff_pre = affected@;
            if lost {
                affected.push(g.manufacturer.clone());
            }
            let keep_group = kept.len() > 0;
            if keep_group {
                let pruned = ManufacturerGroup { manufacturer: g.manufacturer, plugins: kept };
                newg.push(pruned);
            }
            proof {
                let pre = inv0.subrange(0, c);
                let pre1 = inv0.subrange(0, c + 1);
                assert(pre1 =~= pre.push(gm));
                assert(pre1.drop_last() =~= pre);
                let mapped1 = pre1.map_values(|gg: GroupModel| prune_group(gg, dead));
                let mapped = pre.map_values(|gg: GroupModel| prune_group(gg, dead));
                assert(mapped1 =~= mapped.push(prune_group(gm, dead)));
                lemma_filter_push(
                    mapped,
                    prune_group(gm, dead),
                    |gg: GroupModel| gg.plugins.len() > 0,
                );
                if keep_group {
                    assert(group_models(newg@) =~= prune_inventory(pre1, dead));
                } else {
                    assert(group_models(newg@) =~= prune_inventory(pre1, dead));
                }
                assert(models(kept@).len() == kept@.len());
                assert(gm.plugins.len() == g.plugins@.len());
                if lost {
                    assert(views_of(affected@) =~= views_of(aff_pre).push(gm.manufacturer));
                    lemma_to_set_push(views_of(aff_pre), gm.manufacturer);
                    assert(str_set(affected@) == affected_names(pre1, dead));
                } else {
                    assert(str_set(affected@) == affected_names(pre1, dead));
                }
                c = c + 1;
            }
        }
        proof {
            assert(inv0.subrange(0, inv0.len() as int) =~= inv0);
        }
        self.plugins = newg;

        // Drop the deleted paths from the selection.
        let ghost plugins1 = self.plugins@;
        let ghost sel0 = self.selected_plugins@;
        let mut newsel: Vec<String> = Vec::new();
        let mut i: usize = 0;
        while i < self.selected_plugins.len()
            invariant
                i <= self.selected_plugins@.len(),
                self.selected_plugins@ == sel0,
                self.plugins@ == plugins1,
                self.selected_manufacturers@ == old(self).selected_manufacturers@,
                self.scanning == old(self).scanning,
                self.show_confirmation == old(self).show_confirmation,
                self.deletion_error == err1,
                dead == str_set(deleted@),
                gone == str_set(attempted@).union(str_set(deleted@)),
                views_of(newsel@) == views_of(sel0.subrange(0, i as int)).filter(
                    |p: Seq<char>| !gone.contains(p),
                ),
            decreases self.selected_plugins.len() - i,
        {
            proof {
                let pre = views_of(sel0.subrange(0, i as int));
                let pre1 = views_of(sel0.subrange(0, i + 1 as int));
                assert(pre1 =~= pre.push(sel0[i as int]@));
                lemma_filter_push(pre, sel0[i as int]@, |p: Seq<char>| !gone.contains(p));
            }
            if !contains_str(attempted, self.selected_plugins[i].as_str()) && !contains_str(
                deleted,
                self.selected_plugins[i].as_str(),
            ) {
                newsel.push(self.selected_plugins[i].clone());
            }
            i = i + 1;
        }
        proof {
            assert(sel0.subrange(0, sel0.len() as int) =~= sel0);
        }
        self.selected_plugins = newsel;
        proof {
            let pred = |p: Seq<char>| !gone.contains(p);
            let fv = views_of(sel0).filter(pred);
            lemma_filter_to_set(views_of(sel0), pred);
            assert forall|a: int, b: int|
                #![trigger views_of(sel0)[a], views_of(sel0)[b]]
                0 <= a < b < views_of(sel0).len() implies views_of(sel0)[a] != views_of(
                sel0,
            )[b] by {
                assert(sel0[a]@ != sel0[b]@);
            }
            lemma_filter_distinct(views_of(sel0), pred);
            assert forall|a: int, b: int|
                0 <= a < b < self.selected_plugins@.len() implies self.selected_plugins@[a]@
                != self.selected_plugins@[b]@ by {
                assert(views_of(self.selected_plugins@)[a] == fv[a]);
                assert(views_of(self.selected_plugins@)[b] == fv[b]);
                assert(fv[a] != fv[b]);
            }
            assert(str_set(self.selected_plugins@) =~= str_set(sel0).difference(gone));
        }

        // Deselect the manufacturers that lost records.
        let ghost sel1 = self.selected_plugins@;
        let ghost manus0 = self.selected_manufacturers@;
        let mut t: usize = 0;
        while t < affected.len()
            invariant
                t <= affected@.len(),
                self.selected_plugins@ == sel1,
                self.plugins@ == plugins1,
                self.scanning == old(self).scanning,
                self.show_confirmation == old(self).show_confirmation,
                self.deletion_error == err1,
                distinct_views(self.selected_plugins@),
                distinct_views(self.selected_manufacturers@),
                str_set(self.selected_manufacturers@) == str_set(manus0).difference(
                    views_of(affected@).subrange(0, t as int).to_set(),
                ),
            decreases affected.len() - t,
        {
            remove_str(&mut self.selected_manufacturers, affected[t].as_str());
            proof {
                let pre = views_of(affected@).subrange(0, t as int);
                let pre1 = views_of(affected@).subrange(0, t + 1 as int);
                assert(pre1 =~= pre.push(affected@[t as int]@));
                lemma_to_set_push(pre, affected@[t as int]@);
                assert(str_set(manus0).difference(pre.to_set()).remove(affected@[t as int]@)
                    =~= str_set(manus0).difference(pre1.to_set()));
            }
            t = t + 1;
        }
        proof {
            assert(views_of(affected@).subrange(0, affected@.len() as int) =~= views_of(
                affected@,
            ));
        }
    }
}

} // verus!
