//! Inventory assembly: grouping scanned records by the manufacturer
//! grouping key, electing one canonical display name per group by majority
//! vote, and sorting groups and records for presentation.

use vstd::prelude::*;
use crate::names::{clean_chars, clean_spec, norm_key_chars, norm_key_spec};
use crate::strutil::{chars_eq, chars_string, lemma_filter_push, lower_seq, str_chars};
use crate::types::{
    with_manufacturer, GroupModel, ManufacturerGroup, Plugin, PluginModel,
};

verus! {

/// The grouping key of one record.
pub open spec fn record_key(p: PluginModel) -> Seq<char> {
    norm_key_spec(p.manufacturer)
}

/// The distinct grouping keys of `rs`, in order of first appearance.
pub open spec fn keys_of(rs: Seq<PluginModel>) -> Seq<Seq<char>>
    decreases rs.len(),
{
    if rs.len() == 0 {
        Seq::empty()
    } else {
        let ks = keys_of(rs.drop_last());
        if ks.contains(record_key(rs.last())) {
            ks
        } else {
            ks.push(record_key(rs.last()))
        }
    }
}

/// The records of `rs` whose grouping key is `k`, in scan order.
pub open spec fn members_of(rs: Seq<PluginModel>, k: Seq<char>) -> Seq<PluginModel> {
    rs.filter(|p: PluginModel| record_key(p) == k)
}

/// The raw manufacturer strings of a record sequence.
pub open spec fn manufacturers_of(rs: Seq<PluginModel>) -> Seq<Seq<char>> {
    rs.map_values(|p: PluginModel| p.manufacturer)
}

/// How many members of `ms` are exactly the string `m`.
pub open spec fn count_in(ms: Seq<Seq<char>>, m: Seq<char>) -> nat
    decreases ms.len(),
{
    if ms.len() == 0 {
        0
    } else {
        count_in(ms.drop_last(), m) + (if ms.last() == m {
            1nat
        } else {
            0nat
        })
    }
}

/// Strict code-point lexicographic order on strings: the final,
/// total tie-break of the canonical-name vote.
pub open spec fn str_lt(a: Seq<char>, b: Seq<char>) -> bool
    decreases a.len(),
{
    if b.len() == 0 {
        false
    } else if a.len() == 0 {
        true
    } else if a[0] == b[0] {
        str_lt(a.drop_first(), b.drop_first())
    } else {
        a[0] < b[0]
    }
}

/// Candidate `a` strictly beats candidate `b` in the canonical-name vote:
/// strictly more occurrences; or, on equal count, `a` has no hyphen while
/// `b` does; or, then, `a` is shorter; or, on a full tie, `a` is
/// lexicographically smaller. The order is total on distinct spellings,
/// so the election never depends on the order candidates were seen in.
pub open spec fn cand_beats(ms: Seq<Seq<char>>, a: Seq<char>, b: Seq<char>) -> bool {
    let ca = count_in(ms, a);
    let cb = count_in(ms, b);
    ||| ca > cb
    ||| (ca == cb && !a.contains('-') && b.contains('-'))
    ||| (ca == cb && a.contains('-') == b.contains('-') && a.len() < b.len())
    ||| (ca == cb && a.contains('-') == b.contains('-') && a.len() == b.len() && str_lt(a, b))
}

/// The winning candidate among the first `n` of `ms`, counting votes over
/// all of `ms`: a later candidate replaces the incumbent only when it
/// strictly beats it, so on full ties the earliest candidate wins.
pub open spec fn winner_upto(ms: Seq<Seq<char>>, n: int) -> Seq<char>
    decreases n,
{
    if n <= 1 {
        ms[0]
    } else {
        let prev = winner_upto(ms, n - 1);
        if cand_beats(ms, ms[n - 1], prev) {
            ms[n - 1]
        } else {
            prev
        }
    }
}

/// The canonical original spelling elected by a non-empty candidate list.
pub open spec fn winner_spec(ms: Seq<Seq<char>>) -> Seq<char> {
    winner_upto(ms, ms.len() as int)
}

/// The canonical display name of a non-empty record group: the elected
/// original spelling with its legal-entity suffix stripped.
pub open spec fn display_of(mem: Seq<PluginModel>) -> Seq<char> {
    clean_spec(winner_spec(manufacturers_of(mem)))
}

/// Code-point lexicographic order on strings: `a` at or before `b`.
pub open spec fn lex_le(a: Seq<char>, b: Seq<char>) -> bool
    decreases a.len(),
{
    if a.len() == 0 {
        true
    } else if b.len() == 0 {
        false
    } else if a[0] == b[0] {
        lex_le(a.drop_first(), b.drop_first())
    } else {
        a[0] < b[0]
    }
}

/// Record order within a group: case-insensitively by display name.
pub open spec fn name_le(a: PluginModel, b: PluginModel) -> bool {
    lex_le(lower_seq(a.name), lower_seq(b.name))
}

/// Where a record belongs in a sorted group: after every record that
/// sorts at-or-before it, so that ties keep their scan order.
pub open spec fn insert_by_name(x: PluginModel, s: Seq<PluginModel>) -> Seq<PluginModel>
    decreases s.len(),
{
    if s.len() == 0 {
        seq![x]
    } else if name_le(s[0], x) {
        seq![s[0]] + insert_by_name(x, s.drop_first())
    } else {
        seq![x] + s
    }
}

/// Stable insertion sort of a group's records by case-insensitive name.
pub open spec fn sort_by_name(s: Seq<PluginModel>) -> Seq<PluginModel>
    decreases s.len(),
{
    if s.len() == 0 {
        Seq::empty()
    } else {
        insert_by_name(s.last(), sort_by_name(s.drop_last()))
    }
}

/// Group order: lexicographically by canonical display name.
pub open spec fn group_le(a: GroupModel, b: GroupModel) -> bool {
    lex_le(a.manufacturer, b.manufacturer)
}

/// Where a group belongs among the already-sorted groups.
pub open spec fn insert_group(x: GroupModel, s: Seq<GroupModel>) -> Seq<GroupModel>
    decreases s.len(),
{
    if s.len() == 0 {
        seq![x]
    } else if group_le(s[0], x) {
        seq![s[0]] + insert_group(x, s.drop_first())
    } else {
        seq![x] + s
    }
}

/// Stable insertion sort of the groups by display name.
pub open spec fn sort_groups(s: Seq<GroupModel>) -> Seq<GroupModel>
    decreases s.len(),
{
    if s.len() == 0 {
        Seq::empty()
    } else {
        insert_group(s.last(), sort_groups(s.drop_last()))
    }
}

/// One finished group: the members of key `k`, rewritten to the canonical
/// display name and sorted case-insensitively by record name.
pub open spec fn group_for(rs: Seq<PluginModel>, k: Seq<char>) -> GroupModel {
    let mem = members_of(rs, k);
    let disp = display_of(mem);
    GroupModel {
        manufacturer: disp,
        plugins: sort_by_name(mem.map_values(|p: PluginModel| with_manufacturer(p, disp))),
    }
}

/// The finished groups in key first-appearance order, before group sorting.
pub open spec fn groups_of(rs: Seq<PluginModel>) -> Seq<GroupModel> {
    keys_of(rs).map_values(|k: Seq<char>| group_for(rs, k))
}

/// The whole inventory a scan result grows into: records grouped by the
/// manufacturer key, one canonical display name elected per group, records
/// sorted case-insensitively by name within each group, and the groups
/// sorted by display name.
pub open spec fn inventory_spec(rs: Seq<PluginModel>) -> Seq<GroupModel> {
    sort_groups(groups_of(rs))
}

/// A record with its manufacturer field blanked: what stays of a record
/// when the normalizer's one rewrite is set aside.
pub open spec fn strip_manu(p: PluginModel) -> PluginModel {
    with_manufacturer(p, Seq::empty())
}

/// The records with their manufacturer fields blanked.
pub open spec fn stripped(s: Seq<PluginModel>) -> Seq<PluginModel>
    decreases s.len(),
{
    if s.len() == 0 {
        Seq::empty()
    } else {
        stripped(s.drop_last()).push(strip_manu(s.last()))
    }
}

/// All records of an inventory, group by group.
pub open spec fn flatten_groups(gs: Seq<GroupModel>) -> Seq<PluginModel>
    decreases gs.len(),
{
    if gs.len() == 0 {
        Seq::empty()
    } else {
        flatten_groups(gs.drop_last()) + gs.last().plugins
    }
}

proof fn lemma_stripped_index(s: Seq<PluginModel>)
    ensures
        stripped(s).len() == s.len(),
        forall|i: int| 0 <= i < s.len() ==> stripped(s)[i] == strip_manu(#[trigger] s[i]),
    decreases s.len(),
{
    if s.len() > 0 {
        lemma_stripped_index(s.drop_last());
        assert forall|i: int| 0 <= i < s.len() implies stripped(s)[i] == strip_manu(
            #[trigger] s[i],
        ) by {
            if i < s.len() - 1 {
                assert(stripped(s)[i] == stripped(s.drop_last())[i]);
                assert(s.drop_last()[i] == s[i]);
            }
        }
    }
}

proof fn lemma_concat_multiset<A>(a: Seq<A>, b: Seq<A>)
    ensures
        (a + b).to_multiset() == a.to_multiset().add(b.to_multiset()),
    decreases b.len(),
{
    broadcast use vstd::seq_lib::group_to_multiset_ensures;
    broadcast use vstd::multiset::group_multiset_axioms;

    if b.len() == 0 {
        assert(a + b =~= a);
        b.to_multiset_ensures();
        assert(a.to_multiset().add(b.to_multiset()) =~= a.to_multiset());
    } else {
        lemma_concat_multiset(a, b.drop_last());
        assert(a + b =~= (a + b.drop_last()).push(b.last()));
        assert((a + b).to_multiset() =~= (a + b.drop_last()).to_multiset().insert(b.last()));
        assert(b =~= b.drop_last().push(b.last()));
        assert(b.to_multiset() =~= b.drop_last().to_multiset().insert(b.last()));
        assert(a.to_multiset().add(b.to_multiset()) =~= a.to_multiset().add(
            b.drop_last().to_multiset(),
        ).insert(b.last()));
    }
}

/// Scanning is deterministic: two scans that saw the same records build
/// the same inventory — same groups, same canonical names, same record
/// order.
pub proof fn lemma_scan_deterministic(rs1: Seq<PluginModel>, rs2: Seq<PluginModel>)
    requires
        rs1 == rs2,
    ensures
        inventory_spec(rs1) == inventory_spec(rs2),
{
}

/// A scan that accepted nothing builds the empty inventory.
pub proof fn lemma_empty_scan()
    ensures
        inventory_spec(Seq::<PluginModel>::empty()) == Seq::<GroupModel>::empty(),
{
    assert(keys_of(Seq::<PluginModel>::empty()) == Seq::<Seq<char>>::empty());
    assert(groups_of(Seq::<PluginModel>::empty()) =~= Seq::<GroupModel>::empty());
}

proof fn lemma_str_lt_trans(a: Seq<char>, b: Seq<char>, c: Seq<char>)
    requires
        str_lt(a, b),
        str_lt(b, c),
    ensures
        str_lt(a, c),
    decreases a.len(),
{
    if a.len() > 0 && b.len() > 0 && c.len() > 0 && a[0] == b[0] && b[0] == c[0] {
        lemma_str_lt_trans(a.drop_first(), b.drop_first(), c.drop_first());
    }
}

proof fn lemma_str_lt_irrefl(a: Seq<char>)
    ensures
        !str_lt(a, a),
    decreases a.len(),
{
    if a.len() > 0 {
        lemma_str_lt_irrefl(a.drop_first());
    }
}

proof fn lemma_str_lt_connex(a: Seq<char>, b: Seq<char>)
    ensures
        a == b || str_lt(a, b) || str_lt(b, a),
    decreases a.len(),
{
    if a.len() == 0 && b.len() == 0 {
        assert(a =~= b);
    } else if a.len() > 0 && b.len() > 0 && a[0] == b[0] {
        lemma_str_lt_connex(a.drop_first(), b.drop_first());
        if a.drop_first() == b.drop_first() {
            assert(a =~= seq![a[0]] + a.drop_first());
            assert(b =~= seq![b[0]] + b.drop_first());
        }
    }
}

proof fn lemma_stripped_concat(a: Seq<PluginModel>, b: Seq<PluginModel>)
    ensures
        stripped(a + b) == stripped(a) + stripped(b),
{
    lemma_stripped_index(a);
    lemma_stripped_index(b);
    lemma_stripped_index(a + b);
    assert forall|i: int|
        0 <= i < stripped(a + b).len() implies stripped(a + b)[i] == (stripped(a) + stripped(
        b,
    ))[i] by {
        assert(stripped(a + b)[i] == strip_manu((a + b)[i]));
        if i < a.len() {
            assert((a + b)[i] == a[i]);
            assert(stripped(a)[i] == strip_manu(a[i]));
        } else {
            assert((a + b)[i] == b[i - a.len()]);
            assert(stripped(b)[i - a.len()] == strip_manu(b[i - a.len()]));
        }
    }
    assert(stripped(a + b) =~= stripped(a) + stripped(b));
}

proof fn lemma_stripped_singleton(x: PluginModel)
    ensures
        stripped(seq![x]) == Seq::<PluginModel>::empty().push(strip_manu(x)),
{
    lemma_stripped_index(seq![x]);
    assert(stripped(seq![x]) =~= Seq::<PluginModel>::empty().push(strip_manu(x)));
}

proof fn lemma_insert_name_stripped(x: PluginModel, s: Seq<PluginModel>)
    ensures
        stripped(insert_by_name(x, s)).to_multiset() == stripped(s).to_multiset().insert(
            strip_manu(x),
        ),
    decreases s.len(),
{
    broadcast use vstd::seq_lib::group_to_multiset_ensures;
    broadcast use vstd::multiset::group_multiset_axioms;

    if s.len() == 0 {
        lemma_stripped_singleton(x);
        assert(insert_by_name(x, s) =~= seq![x]);
        assert(stripped(s) =~= Seq::<PluginModel>::empty());
    } else if name_le(s[0], x) {
        let t = insert_by_name(x, s.drop_first());
        lemma_insert_name_stripped(x, s.drop_first());
        lemma_stripped_singleton(s[0]);
        lemma_stripped_concat(seq![s[0]], t);
        lemma_concat_multiset(stripped(seq![s[0]]), stripped(t));
        lemma_stripped_concat(seq![s[0]], s.drop_first());
        lemma_concat_multiset(stripped(seq![s[0]]), stripped(s.drop_first()));
        assert(seq![s[0]] + s.drop_first() =~= s);
        assert(stripped(insert_by_name(x, s)).to_multiset() =~= stripped(s).to_multiset().insert(
            strip_manu(x),
        ));
    } else {
        lemma_stripped_singleton(x);
        lemma_stripped_concat(seq![x], s);
        lemma_concat_multiset(stripped(seq![x]), stripped(s));
        assert(stripped(insert_by_name(x, s)).to_multiset() =~= stripped(s).to_multiset().insert(
            strip_manu(x),
        ));
    }
}

proof fn lemma_sort_stripped(s: Seq<PluginModel>)
    ensures
        stripped(sort_by_name(s)).to_multiset() == stripped(s).to_multiset(),
    decreases s.len(),
{
    broadcast use vstd::seq_lib::group_to_multiset_ensures;

    if s.len() > 0 {
        lemma_sort_stripped(s.drop_last());
        lemma_insert_name_stripped(s.last(), sort_by_name(s.drop_last()));
    }
}

proof fn lemma_rewrite_stripped(mem: Seq<PluginModel>, d: Seq<char>)
    ensures
        stripped(mem.map_values(|p: PluginModel| with_manufacturer(p, d))) == stripped(mem),
{
    let mapped = mem.map_values(|p: PluginModel| with_manufacturer(p, d));
    lemma_stripped_index(mapped);
    lemma_stripped_index(mem);
    assert forall|i: int|
        0 <= i < stripped(mapped).len() implies stripped(mapped)[i] == stripped(mem)[i] by {
        assert(stripped(mapped)[i] == strip_manu(mapped[i]));
        assert(mapped[i] == with_manufacturer(mem[i], d));
        assert(stripped(mem)[i] == strip_manu(mem[i]));
    }
    assert(stripped(mapped) =~= stripped(mem));
}

proof fn lemma_flatten_cons(g: GroupModel, t: Seq<GroupModel>)
    ensures
        flatten_groups(seq![g] + t) == g.plugins + flatten_groups(t),
    decreases t.len(),
{
    if t.len() == 0 {
        assert(seq![g] + t =~= seq![g]);
        assert(seq![g].drop_last() =~= Seq::<GroupModel>::empty());
        assert(flatten_groups(Seq::<GroupModel>::empty()) =~= Seq::<PluginModel>::empty());
        assert(flatten_groups(seq![g]) == flatten_groups(Seq::<GroupModel>::empty())
            + seq![g].last().plugins);
        assert(flatten_groups(seq![g]) =~= g.plugins + flatten_groups(t));
    } else {
        lemma_flatten_cons(g, t.drop_last());
        assert((seq![g] + t).drop_last() =~= seq![g] + t.drop_last());
        assert((seq![g] + t).last() == t.last());
        assert(flatten_groups(t) == flatten_groups(t.drop_last()) + t.last().plugins);
        assert(flatten_groups(seq![g] + t) =~= g.plugins + flatten_groups(t));
    }
}

proof fn lemma_flatten_insert_group(g: GroupModel, s: Seq<GroupModel>)
    ensures
        stripped(flatten_groups(insert_group(g, s))).to_multiset() == stripped(
            flatten_groups(s),
        ).to_multiset().add(stripped(g.plugins).to_multiset()),
    decreases s.len(),
{
    broadcast use vstd::seq_lib::group_to_multiset_ensures;
    broadcast use vstd::multiset::group_multiset_axioms;

    if s.len() == 0 {
        lemma_flatten_cons(g, s);
        lemma_stripped_concat(g.plugins, flatten_groups(s));
        lemma_concat_multiset(stripped(g.plugins), stripped(flatten_groups(s)));
        assert(stripped(flatten_groups(insert_group(g, s))).to_multiset() =~= stripped(
            flatten_groups(s),
        ).to_multiset().add(stripped(g.plugins).to_multiset()));
    } else if group_le(s[0], g) {
        let t = insert_group(g, s.drop_first());
        lemma_flatten_insert_group(g, s.drop_first());
        lemma_flatten_cons(s[0], t);
        lemma_stripped_concat(s[0].plugins, flatten_groups(t));
        lemma_concat_multiset(stripped(s[0].plugins), stripped(flatten_groups(t)));
        lemma_flatten_cons(s[0], s.drop_first());
        assert(seq![s[0]] + s.drop_first() =~= s);
        lemma_stripped_concat(s[0].plugins, flatten_groups(s.drop_first()));
        lemma_concat_multiset(stripped(s[0].plugins), stripped(flatten_groups(s.drop_first())));
        assert(stripped(flatten_groups(insert_group(g, s))).to_multiset() =~= stripped(
            flatten_groups(s),
        ).to_multiset().add(stripped(g.plugins).to_multiset()));
    } else {
        lemma_flatten_cons(g, s);
        lemma_stripped_concat(g.plugins, flatten_groups(s));
        lemma_concat_multiset(stripped(g.plugins), stripped(flatten_groups(s)));
        assert(stripped(flatten_groups(insert_group(g, s))).to_multiset() =~= stripped(
            flatten_groups(s),
        ).to_multiset().add(stripped(g.plugins).to_multiset()));
    }
}

proof fn lemma_sort_groups_stripped(s: Seq<GroupModel>)
    ensures
        stripped(flatten_groups(sort_groups(s))).to_multiset() == stripped(
            flatten_groups(s),
        ).to_multiset(),
    decreases s.len(),
{
    broadcast use vstd::seq_lib::group_to_multiset_ensures;
    broadcast use vstd::multiset::group_multiset_axioms;

    if s.len() > 0 {
        lemma_sort_groups_stripped(s.drop_last());
        lemma_flatten_insert_group(s.last(), sort_groups(s.drop_last()));
        assert(flatten_groups(s) == flatten_groups(s.drop_last()) + s.last().plugins);
        lemma_stripped_concat(flatten_groups(s.drop_last()), s.last().plugins);
        lemma_concat_multiset(stripped(flatten_groups(s.drop_last())), stripped(s.last().plugins));
    }
}

/// The member multisets of `rs` summed over the keys `ks`, manufacturers
/// blanked.
pub open spec fn stripped_msum(
    rs: Seq<PluginModel>,
    ks: Seq<Seq<char>>,
) -> vstd::multiset::Multiset<PluginModel>
    decreases ks.len(),
{
    if ks.len() == 0 {
        vstd::multiset::Multiset::empty()
    } else {
        stripped_msum(rs, ks.drop_last()).add(
            stripped(members_of(rs, ks.last())).to_multiset(),
        )
    }
}

proof fn lemma_msum_step_absent(dl: Seq<PluginModel>, p: PluginModel, ks: Seq<Seq<char>>)
    requires
        forall|j: int| 0 <= j < ks.len() ==> #[trigger] ks[j] != record_key(p),
    ensures
        stripped_msum(dl.push(p), ks) == stripped_msum(dl, ks),
    decreases ks.len(),
{
    if ks.len() > 0 {
        lemma_msum_step_absent(dl, p, ks.drop_last());
        lemma_filter_push(dl, p, |q: PluginModel| record_key(q) == ks.last());
        assert(ks[ks.len() - 1] != record_key(p));
    }
}

proof fn lemma_msum_step_present(dl: Seq<PluginModel>, p: PluginModel, ks: Seq<Seq<char>>)
    requires
        ks.no_duplicates(),
        ks.contains(record_key(p)),
    ensures
        stripped_msum(dl.push(p), ks) == stripped_msum(dl, ks).insert(strip_manu(p)),
    decreases ks.len(),
{
    broadcast use vstd::seq_lib::group_to_multiset_ensures;
    broadcast use vstd::multiset::group_multiset_axioms;

    lemma_filter_push(dl, p, |q: PluginModel| record_key(q) == ks.last());
    if ks.last() == record_key(p) {
        assert forall|j: int|
            0 <= j < ks.drop_last().len() implies #[trigger] ks.drop_last()[j] != record_key(
            p,
        ) by {
            assert(ks[j] == ks.drop_last()[j]);
            assert(ks[ks.len() - 1] == record_key(p));
        }
        lemma_msum_step_absent(dl, p, ks.drop_last());
        let memd = members_of(dl, ks.last());
        assert(members_of(dl.push(p), ks.last()) == memd.push(p));
        assert((memd.push(p)).drop_last() =~= memd);
        assert(stripped(memd.push(p)) == stripped(memd).push(strip_manu(p)));
        assert(stripped(memd.push(p)).to_multiset() =~= stripped(memd).to_multiset().insert(
            strip_manu(p),
        ));
        assert(stripped_msum(dl.push(p), ks) =~= stripped_msum(dl, ks).insert(strip_manu(p)));
    } else {
        let j = choose|j: int| 0 <= j < ks.len() && ks[j] == record_key(p);
        assert(j < ks.len() - 1);
        assert(ks.drop_last()[j] == record_key(p));
        assert(ks.drop_last().contains(record_key(p)));
        lemma_msum_step_present(dl, p, ks.drop_last());
        assert(stripped_msum(dl.push(p), ks) =~= stripped_msum(dl, ks).insert(strip_manu(p)));
    }
}

proof fn lemma_stripped_partition(rs: Seq<PluginModel>)
    ensures
        stripped_msum(rs, keys_of(rs)) == stripped(rs).to_multiset(),
    decreases rs.len(),
{
    broadcast use vstd::seq_lib::group_to_multiset_ensures;
    broadcast use vstd::multiset::group_multiset_axioms;

    reveal(Seq::filter);
    if rs.len() > 0 {
        let dl = rs.drop_last();
        let p = rs.last();
        let k = record_key(p);
        let ks = keys_of(dl);
        lemma_stripped_partition(dl);
        lemma_keys_distinct(dl);
        assert(dl.push(p) =~= rs);
        assert(stripped(rs).to_multiset() =~= stripped(dl).to_multiset().insert(strip_manu(p)));
        if ks.contains(k) {
            assert(keys_of(rs) == ks);
            lemma_msum_step_present(dl, p, ks);
        } else {
            assert(keys_of(rs) == ks.push(k));
            assert forall|j: int| 0 <= j < ks.len() implies #[trigger] ks[j] != k by {
                if ks[j] == k {
                    assert(ks.contains(k));
                }
            }
            lemma_msum_step_absent(dl, p, ks);
            assert(keys_of(rs).drop_last() =~= ks);
            lemma_members_empty(dl, k);
            lemma_filter_push(dl, p, |q: PluginModel| record_key(q) == k);
            assert(members_of(rs, k) == Seq::<PluginModel>::empty().push(p));
            lemma_stripped_singleton(p);
            assert(stripped(members_of(rs, k)) =~= Seq::<PluginModel>::empty().push(
                strip_manu(p),
            ));
            assert(stripped_msum(rs, keys_of(rs)) =~= stripped(rs).to_multiset());
        }
    } else {
        assert(keys_of(rs).len() == 0);
        assert(stripped(rs) =~= Seq::<PluginModel>::empty());
        rs.to_multiset_ensures();
        stripped(rs).to_multiset_ensures();
        assert(stripped_msum(rs, keys_of(rs)) =~= stripped(rs).to_multiset());
    }
}

proof fn lemma_groups_of_stripped(rs: Seq<PluginModel>, ks: Seq<Seq<char>>)
    ensures
        stripped(
            flatten_groups(ks.map_values(|k: Seq<char>| group_for(rs, k))),
        ).to_multiset() == stripped_msum(rs, ks),
    decreases ks.len(),
{
    broadcast use vstd::seq_lib::group_to_multiset_ensures;
    broadcast use vstd::multiset::group_multiset_axioms;

    let gs = ks.map_values(|k: Seq<char>| group_for(rs, k));
    if ks.len() == 0 {
        assert(gs.len() == 0);
        assert(stripped(flatten_groups(gs)) =~= Seq::<PluginModel>::empty());
        stripped(flatten_groups(gs)).to_multiset_ensures();
        assert(stripped(flatten_groups(gs)).to_multiset() =~= vstd::multiset::Multiset::empty());
    } else {
        lemma_groups_of_stripped(rs, ks.drop_last());
        assert(gs.drop_last() =~= ks.drop_last().map_values(|k: Seq<char>| group_for(rs, k)));
        assert(gs.last() == group_for(rs, ks.last()));
        let mem = members_of(rs, ks.last());
        let disp = display_of(mem);
        lemma_sort_stripped(mem.map_values(|p: PluginModel| with_manufacturer(p, disp)));
        lemma_rewrite_stripped(mem, disp);
        assert(stripped(gs.last().plugins).to_multiset() == stripped(mem).to_multiset());
        assert(flatten_groups(gs) == flatten_groups(gs.drop_last()) + gs.last().plugins);
        lemma_stripped_concat(flatten_groups(gs.drop_last()), gs.last().plugins);
        lemma_concat_multiset(
            stripped(flatten_groups(gs.drop_last())),
            stripped(gs.last().plugins),
        );
    }
}

/// The inventory is the scanned records, permuted, with only the
/// manufacturer field rewritten: blanking that one field, the records
/// across all groups form exactly the scanned records' multiset.
pub proof fn lemma_records_preserved(rs: Seq<PluginModel>)
    ensures
        stripped(flatten_groups(inventory_spec(rs))).to_multiset() == stripped(rs).to_multiset(),
{
    lemma_sort_groups_stripped(groups_of(rs));
    lemma_groups_of_stripped(rs, keys_of(rs));
    lemma_stripped_partition(rs);
}

proof fn lemma_lex_total(a: Seq<char>, b: Seq<char>)
    ensures
        lex_le(a, b) || lex_le(b, a),
    decreases a.len(),
{
    if a.len() > 0 && b.len() > 0 && a[0] == b[0] {
        lemma_lex_total(a.drop_first(), b.drop_first());
    }
}

proof fn lemma_lex_trans(a: Seq<char>, b: Seq<char>, c: Seq<char>)
    requires
        lex_le(a, b),
        lex_le(b, c),
    ensures
        lex_le(a, c),
    decreases a.len(),
{
    if a.len() > 0 {
        assert(b.len() > 0);
        assert(c.len() > 0);
        if a[0] == b[0] && b[0] == c[0] {
            lemma_lex_trans(a.drop_first(), b.drop_first(), c.drop_first());
        }
    }
}

proof fn lemma_lex_le_antisym(a: Seq<char>, b: Seq<char>)
    requires
        lex_le(a, b),
        lex_le(b, a),
    ensures
        a == b,
    decreases a.len(),
{
    if a.len() == 0 {
        assert(b.len() == 0);
        assert(a =~= b);
    } else {
        assert(b.len() > 0);
        if a[0] == b[0] {
            lemma_lex_le_antisym(a.drop_first(), b.drop_first());
            assert(a =~= seq![a[0]] + a.drop_first());
            assert(b =~= seq![b[0]] + b.drop_first());
        } else {
            assert(false);
        }
    }
}

/// Records pairwise in order, case-insensitively by name.
pub open spec fn records_sorted(s: Seq<PluginModel>) -> bool {
    forall|i: int, j: int| 0 <= i < j < s.len() ==> name_le(#[trigger] s[i], #[trigger] s[j])
}

/// Groups pairwise in order by display name.
pub open spec fn groups_sorted(s: Seq<GroupModel>) -> bool {
    forall|i: int, j: int| 0 <= i < j < s.len() ==> group_le(#[trigger] s[i], #[trigger] s[j])
}

proof fn lemma_insert_name_lb(x: PluginModel, s: Seq<PluginModel>, b: PluginModel)
    requires
        name_le(b, x),
        forall|i: int| 0 <= i < s.len() ==> name_le(b, #[trigger] s[i]),
    ensures
        forall|i: int|
            0 <= i < insert_by_name(x, s).len() ==> name_le(b, #[trigger] insert_by_name(x, s)[i]),
    decreases s.len(),
{
    if s.len() > 0 && name_le(s[0], x) {
        lemma_insert_name_lb(x, s.drop_first(), b);
        assert forall|i: int|
            0 <= i < insert_by_name(x, s).len() implies name_le(
            b,
            #[trigger] insert_by_name(x, s)[i],
        ) by {
            if i > 0 {
                assert(insert_by_name(x, s)[i] == insert_by_name(x, s.drop_first())[i - 1]);
            }
        }
    }
}

proof fn lemma_insert_name_sorted(x: PluginModel, s: Seq<PluginModel>)
    requires
        records_sorted(s),
    ensures
        records_sorted(insert_by_name(x, s)),
    decreases s.len(),
{
    if s.len() == 0 {
    } else if name_le(s[0], x) {
        let t = insert_by_name(x, s.drop_first());
        assert(records_sorted(s.drop_first()));
        lemma_insert_name_sorted(x, s.drop_first());
        assert forall|i: int|
            0 <= i < s.drop_first().len() implies name_le(s[0], #[trigger] s.drop_first()[i]) by {
            assert(s.drop_first()[i] == s[i + 1]);
        }
        lemma_insert_name_lb(x, s.drop_first(), s[0]);
        assert forall|i: int, j: int|
            0 <= i < j < insert_by_name(x, s).len() implies name_le(
            #[trigger] insert_by_name(x, s)[i],
            #[trigger] insert_by_name(x, s)[j],
        ) by {
            if i == 0 {
                assert(insert_by_name(x, s)[j] == t[j - 1]);
            } else {
                assert(insert_by_name(x, s)[i] == t[i - 1]);
                assert(insert_by_name(x, s)[j] == t[j - 1]);
            }
        }
    } else {
        lemma_lex_total(lower_seq(s[0].name), lower_seq(x.name));
        assert(name_le(x, s[0]));
        assert forall|i: int, j: int|
            0 <= i < j < insert_by_name(x, s).len() implies name_le(
            #[trigger] insert_by_name(x, s)[i],
            #[trigger] insert_by_name(x, s)[j],
        ) by {
            if i == 0 {
                assert(insert_by_name(x, s)[j] == s[j - 1]);
                if j > 1 {
                    lemma_lex_trans(
                        lower_seq(x.name),
                        lower_seq(s[0].name),
                        lower_seq(s[j - 1].name),
                    );
                }
            } else {
                assert(insert_by_name(x, s)[i] == s[i - 1]);
                assert(insert_by_name(x, s)[j] == s[j - 1]);
            }
        }
    }
}

proof fn lemma_sort_records_sorted(s: Seq<PluginModel>)
    ensures
        records_sorted(sort_by_name(s)),
    decreases s.len(),
{
    if s.len() > 0 {
        lemma_sort_records_sorted(s.drop_last());
        lemma_insert_name_sorted(s.last(), sort_by_name(s.drop_last()));
    }
}

proof fn lemma_insert_group_lb(x: GroupModel, s: Seq<GroupModel>, b: GroupModel)
    requires
        group_le(b, x),
        forall|i: int| 0 <= i < s.len() ==> group_le(b, #[trigger] s[i]),
    ensures
        forall|i: int|
            0 <= i < insert_group(x, s).len() ==> group_le(b, #[trigger] insert_group(x, s)[i]),
    decreases s.len(),
{
    if s.len() > 0 && group_le(s[0], x) {
        lemma_insert_group_lb(x, s.drop_first(), b);
        assert forall|i: int|
            0 <= i < insert_group(x, s).len() implies group_le(
            b,
            #[trigger] insert_group(x, s)[i],
        ) by {
            if i > 0 {
                assert(insert_group(x, s)[i] == insert_group(x, s.drop_first())[i - 1]);
            }
        }
    }
}

proof fn lemma_insert_group_sorted(x: GroupModel, s: Seq<GroupModel>)
    requires
        groups_sorted(s),
    ensures
        groups_sorted(insert_group(x, s)),
    decreases s.len(),
{
    if s.len() == 0 {
    } else if group_le(s[0], x) {
        let t = insert_group(x, s.drop_first());
        assert(groups_sorted(s.drop_first()));
        lemma_insert_group_sorted(x, s.drop_first());
        assert forall|i: int|
            0 <= i < s.drop_first().len() implies group_le(s[0], #[trigger] s.drop_first()[i]) by {
            assert(s.drop_first()[i] == s[i + 1]);
        }
        lemma_insert_group_lb(x, s.drop_first(), s[0]);
        assert forall|i: int, j: int|
            0 <= i < j < insert_group(x, s).len() implies group_le(
            #[trigger] insert_group(x, s)[i],
            #[trigger] insert_group(x, s)[j],
        ) by {
            if i == 0 {
                assert(insert_group(x, s)[j] == t[j - 1]);
            } else {
                assert(insert_group(x, s)[i] == t[i - 1]);
                assert(insert_group(x, s)[j] == t[j - 1]);
            }
        }
    } else {
        lemma_lex_total(s[0].manufacturer, x.manufacturer);
        assert(group_le(x, s[0]));
        assert forall|i: int, j: int|
            0 <= i < j < insert_group(x, s).len() implies group_le(
            #[trigger] insert_group(x, s)[i],
            #[trigger] insert_group(x, s)[j],
        ) by {
            if i == 0 {
                assert(insert_group(x, s)[j] == s[j - 1]);
                if j > 1 {
                    lemma_lex_trans(x.manufacturer, s[0].manufacturer, s[j - 1].manufacturer);
                }
            } else {
                assert(insert_group(x, s)[i] == s[i - 1]);
                assert(insert_group(x, s)[j] == s[j - 1]);
            }
        }
    }
}

proof fn lemma_sort_groups_sorted(s: Seq<GroupModel>)
    ensures
        groups_sorted(sort_groups(s)),
    decreases s.len(),
{
    if s.len() > 0 {
        lemma_sort_groups_sorted(s.drop_last());
        lemma_insert_group_sorted(s.last(), sort_groups(s.drop_last()));
    }
}

proof fn lemma_insert_group_members(x: GroupModel, s: Seq<GroupModel>, i: int)
    requires
        0 <= i < insert_group(x, s).len(),
    ensures
        insert_group(x, s)[i] == x || s.contains(insert_group(x, s)[i]),
    decreases s.len(),
{
    if s.len() > 0 && group_le(s[0], x) {
        if i > 0 {
            lemma_insert_group_members(x, s.drop_first(), i - 1);
            let y = insert_group(x, s)[i];
            assert(y == insert_group(x, s.drop_first())[i - 1]);
            if y != x {
                let j = choose|j: int|
                    0 <= j < s.drop_first().len() && s.drop_first()[j] == y;
                assert(s[j + 1] == y);
            }
        }
    } else {
        if i > 0 {
            assert(insert_group(x, s)[i] == s[i - 1]);
        }
    }
}

proof fn lemma_sort_groups_members(s: Seq<GroupModel>, i: int)
    requires
        0 <= i < sort_groups(s).len(),
    ensures
        s.contains(sort_groups(s)[i]),
    decreases s.len(),
{
    if s.len() > 0 {
        lemma_insert_group_members(s.last(), sort_groups(s.drop_last()), i);
        let y = sort_groups(s)[i];
        if y == s.last() {
            assert(s[s.len() - 1] == y);
        } else {
            let j = choose|j: int|
                0 <= j < sort_groups(s.drop_last()).len() && sort_groups(s.drop_last())[j] == y;
            lemma_sort_groups_members(s.drop_last(), j);
            let k = choose|k: int| 0 <= k < s.drop_last().len() && s.drop_last()[k] == y;
            assert(s[k] == y);
        }
    }
}

/// The built inventory is sorted for presentation: groups ascending by
/// display name, and each group's records ascending case-insensitively by
/// record name.
pub proof fn lemma_inventory_sorted(rs: Seq<PluginModel>)
    ensures
        groups_sorted(inventory_spec(rs)),
        forall|g: int|
            0 <= g < inventory_spec(rs).len() ==> records_sorted(
                (#[trigger] inventory_spec(rs)[g]).plugins,
            ),
{
    lemma_sort_groups_sorted(groups_of(rs));
    assert forall|g: int|
        0 <= g < inventory_spec(rs).len() implies records_sorted(
        (#[trigger] inventory_spec(rs)[g]).plugins,
    ) by {
        lemma_sort_groups_members(groups_of(rs), g);
        let grp = inventory_spec(rs)[g];
        let j = choose|j: int| 0 <= j < groups_of(rs).len() && groups_of(rs)[j] == grp;
        assert(groups_of(rs)[j] == group_for(rs, keys_of(rs)[j]));
        let mem = members_of(rs, keys_of(rs)[j]);
        let disp = display_of(mem);
        lemma_sort_records_sorted(mem.map_values(|p: PluginModel| with_manufacturer(p, disp)));
    }
}

proof fn lemma_cons_multiset<A>(a: A, t: Seq<A>)
    ensures
        (seq![a] + t).to_multiset() == t.to_multiset().insert(a),
    decreases t.len(),
{
    broadcast use vstd::seq_lib::group_to_multiset_ensures;

    if t.len() == 0 {
        assert(seq![a] + t =~= Seq::<A>::empty().push(a));
        assert((Seq::<A>::empty().push(a)).to_multiset() =~= Seq::<A>::empty().to_multiset()
            .insert(a));
        assert(t.to_multiset().insert(a) =~= Seq::<A>::empty().to_multiset().insert(a));
    } else {
        lemma_cons_multiset(a, t.drop_last());
        assert(seq![a] + t =~= (seq![a] + t.drop_last()).push(t.last()));
        assert(t =~= t.drop_last().push(t.last()));
        assert((seq![a] + t).to_multiset() =~= t.drop_last().to_multiset().insert(a).insert(
            t.last(),
        ));
        assert(t.to_multiset().insert(a) =~= t.drop_last().to_multiset().insert(t.last()).insert(
            a,
        ));
        assert(t.drop_last().to_multiset().insert(a).insert(t.last())
            =~= t.drop_last().to_multiset().insert(t.last()).insert(a));
    }
}

proof fn lemma_insert_group_multiset(x: GroupModel, s: Seq<GroupModel>)
    ensures
        insert_group(x, s).to_multiset() == s.to_multiset().insert(x),
    decreases s.len(),
{
    broadcast use vstd::seq_lib::group_to_multiset_ensures;

    if s.len() == 0 {
        lemma_cons_multiset(x, s);
        assert(seq![x] + s =~= insert_group(x, s));
    } else if group_le(s[0], x) {
        lemma_insert_group_multiset(x, s.drop_first());
        lemma_cons_multiset(s[0], insert_group(x, s.drop_first()));
        lemma_cons_multiset(s[0], s.drop_first());
        assert(seq![s[0]] + s.drop_first() =~= s);
        assert(insert_group(x, s).to_multiset() =~= s.drop_first().to_multiset().insert(x).insert(
            s[0],
        ));
        assert(s.to_multiset().insert(x) =~= s.drop_first().to_multiset().insert(s[0]).insert(x));
        assert(s.drop_first().to_multiset().insert(x).insert(s[0])
            =~= s.drop_first().to_multiset().insert(s[0]).insert(x));
    } else {
        lemma_cons_multiset(x, s);
    }
}

proof fn lemma_sort_groups_multiset(s: Seq<GroupModel>)
    ensures
        sort_groups(s).to_multiset() == s.to_multiset(),
    decreases s.len(),
{
    broadcast use vstd::seq_lib::group_to_multiset_ensures;

    if s.len() > 0 {
        lemma_sort_groups_multiset(s.drop_last());
        lemma_insert_group_multiset(s.last(), sort_groups(s.drop_last()));
        assert(s =~= s.drop_last().push(s.last()));
        assert(s.to_multiset() =~= s.drop_last().to_multiset().insert(s.last()));
    }
}

proof fn lemma_keys_distinct(rs: Seq<PluginModel>)
    ensures
        keys_of(rs).no_duplicates(),
    decreases rs.len(),
{
    if rs.len() > 0 {
        lemma_keys_distinct(rs.drop_last());
        let ks = keys_of(rs.drop_last());
        let k = record_key(rs.last());
        if !ks.contains(k) {
            assert forall|i: int, j: int|
                0 <= i < j < keys_of(rs).len() implies keys_of(rs)[i] != keys_of(rs)[j] by {
                if j == keys_of(rs).len() - 1 {
                    assert(keys_of(rs)[i] == ks[i]);
                    if ks[i] == k {
                        assert(ks.contains(k));
                    }
                }
            }
        }
    }
}

proof fn lemma_key_indexed_member(rs: Seq<PluginModel>, j: int)
    requires
        0 <= j < keys_of(rs).len(),
    ensures
        exists|i: int| 0 <= i < rs.len() && record_key(#[trigger] rs[i]) == keys_of(rs)[j],
    decreases rs.len(),
{
    let ks = keys_of(rs.drop_last());
    if j < ks.len() {
        lemma_key_indexed_member(rs.drop_last(), j);
        let i = choose|i: int|
            0 <= i < rs.drop_last().len() && record_key(#[trigger] rs.drop_last()[i]) == ks[j];
        assert(record_key(rs[i]) == keys_of(rs)[j]);
    } else {
        assert(record_key(rs[rs.len() - 1]) == keys_of(rs)[j]);
    }
}

/// The canonical display name determines the grouping key: cleaning is
/// idempotent under the key derivation, so a finished group's display
/// name normalizes back to exactly its group's key.
proof fn lemma_display_determines_key(rs: Seq<PluginModel>, j: int)
    requires
        0 <= j < keys_of(rs).len(),
    ensures
        crate::names::squash_spec(
            crate::strutil::lower_seq(group_for(rs, keys_of(rs)[j]).manufacturer),
        ) == keys_of(rs)[j],
{
    let k = keys_of(rs)[j];
    let mem = members_of(rs, k);
    lemma_key_indexed_member(rs, j);
    let i = choose|i: int| 0 <= i < rs.len() && record_key(#[trigger] rs[i]) == k;
    rs.lemma_filter_contains(|p: PluginModel| record_key(p) == k, i);
    assert(mem.contains(rs[i]));
    assert(mem.len() > 0);
    let ms = manufacturers_of(mem);
    lemma_winner_sound(ms);
    let w = winner_spec(ms);
    let wi = choose|wi: int| 0 <= wi < ms.len() && ms[wi] == w;
    assert(mem[wi].manufacturer == w);
    rs.lemma_filter_pred(|p: PluginModel| record_key(p) == k, wi);
    assert(record_key(mem[wi]) == k);
    assert(norm_key_spec(w) == k);
}

/// The inventory is a true mapping: no two groups carry the same
/// canonical display name.
pub proof fn lemma_display_names_unique(rs: Seq<PluginModel>)
    ensures
        forall|i: int, j: int|
            0 <= i < j < inventory_spec(rs).len() ==> (#[trigger] inventory_spec(rs)[i])
                .manufacturer != (#[trigger] inventory_spec(rs)[j]).manufacturer,
{
    broadcast use vstd::seq_lib::group_to_multiset_ensures;

    let gs = groups_of(rs);
    let inv = inventory_spec(rs);
    lemma_keys_distinct(rs);
    assert forall|a: int, b: int|
        0 <= a < b < gs.len() implies (#[trigger] gs[a]).manufacturer != (
    #[trigger] gs[b]).manufacturer by {
        lemma_display_determines_key(rs, a);
        lemma_display_determines_key(rs, b);
        assert(keys_of(rs)[a] != keys_of(rs)[b]);
    }
    assert forall|a: int, b: int| 0 <= a < b < gs.len() implies gs[a] != gs[b] by {
        assert(gs[a].manufacturer != gs[b].manufacturer);
    }
    assert(gs.no_duplicates());
    gs.lemma_multiset_has_no_duplicates();
    lemma_sort_groups_multiset(gs);
    assert forall|x: GroupModel|
        inv.to_multiset().contains(x) implies inv.to_multiset().count(x) == 1 by {
        assert(gs.to_multiset().contains(x));
    }
    inv.lemma_multiset_has_no_duplicates_conv();
    assert forall|i: int, j: int|
        0 <= i < j < inv.len() implies (#[trigger] inv[i]).manufacturer != (
    #[trigger] inv[j]).manufacturer by {
        assert(inv[i] != inv[j]);
        if inv[i].manufacturer == inv[j].manufacturer {
            lemma_sort_groups_members(gs, i);
            lemma_sort_groups_members(gs, j);
            let a = choose|a: int| 0 <= a < gs.len() && gs[a] == inv[i];
            let b = choose|b: int| 0 <= b < gs.len() && gs[b] == inv[j];
            assert(a != b);
            if a < b {
                assert(gs[a].manufacturer != gs[b].manufacturer);
            } else {
                assert(gs[b].manufacturer != gs[a].manufacturer);
            }
        }
    }
}

/// The member counts of `rs` summed over the keys `ks`.
pub open spec fn sum_members(rs: Seq<PluginModel>, ks: Seq<Seq<char>>) -> nat
    decreases ks.len(),
{
    if ks.len() == 0 {
        0
    } else {
        sum_members(rs, ks.drop_last()) + members_of(rs, ks.last()).len()
    }
}

/// The record count of a finished inventory.
pub open spec fn total_records(gs: Seq<GroupModel>) -> nat
    decreases gs.len(),
{
    if gs.len() == 0 {
        0
    } else {
        total_records(gs.drop_last()) + gs.last().plugins.len()
    }
}

proof fn lemma_sum_step_absent(dl: Seq<PluginModel>, p: PluginModel, ks: Seq<Seq<char>>)
    requires
        forall|j: int| 0 <= j < ks.len() ==> #[trigger] ks[j] != record_key(p),
    ensures
        sum_members(dl.push(p), ks) == sum_members(dl, ks),
    decreases ks.len(),
{
    if ks.len() > 0 {
        lemma_sum_step_absent(dl, p, ks.drop_last());
        lemma_filter_push(dl, p, |q: PluginModel| record_key(q) == ks.last());
        assert(ks[ks.len() - 1] != record_key(p));
    }
}

proof fn lemma_sum_step_present(dl: Seq<PluginModel>, p: PluginModel, ks: Seq<Seq<char>>)
    requires
        ks.no_duplicates(),
        ks.contains(record_key(p)),
    ensures
        sum_members(dl.push(p), ks) == sum_members(dl, ks) + 1,
    decreases ks.len(),
{
    lemma_filter_push(dl, p, |q: PluginModel| record_key(q) == ks.last());
    if ks.last() == record_key(p) {
        assert forall|j: int|
            0 <= j < ks.drop_last().len() implies #[trigger] ks.drop_last()[j] != record_key(
            p,
        ) by {
            assert(ks[j] == ks.drop_last()[j]);
            assert(ks[ks.len() - 1] == record_key(p));
        }
        lemma_sum_step_absent(dl, p, ks.drop_last());
    } else {
        let j = choose|j: int| 0 <= j < ks.len() && ks[j] == record_key(p);
        assert(j < ks.len() - 1);
        assert(ks.drop_last()[j] == record_key(p));
        assert(ks.drop_last().contains(record_key(p)));
        lemma_sum_step_present(dl, p, ks.drop_last());
    }
}

/// The grouping keys partition the records: every record is a member of
/// exactly one key's group.
proof fn lemma_keys_partition(rs: Seq<PluginModel>)
    ensures
        sum_members(rs, keys_of(rs)) == rs.len(),
    decreases rs.len(),
{
    reveal(Seq::filter);
    if rs.len() > 0 {
        let dl = rs.drop_last();
        let p = rs.last();
        let k = record_key(p);
        let ks = keys_of(dl);
        lemma_keys_partition(dl);
        lemma_keys_distinct(dl);
        assert(dl.push(p) =~= rs);
        if ks.contains(k) {
            assert(keys_of(rs) == ks);
            lemma_sum_step_present(dl, p, ks);
        } else {
            assert(keys_of(rs) == ks.push(k));
            assert forall|j: int| 0 <= j < ks.len() implies #[trigger] ks[j] != k by {
                if ks[j] == k {
                    assert(ks.contains(k));
                }
            }
            lemma_sum_step_absent(dl, p, ks);
            assert(keys_of(rs).drop_last() =~= ks);
            lemma_members_empty(dl, k);
            lemma_filter_push(dl, p, |q: PluginModel| record_key(q) == k);
            assert(members_of(rs, k).len() == 1);
        }
    } else {
        assert(keys_of(rs).len() == 0);
    }
}

proof fn lemma_insert_name_len(x: PluginModel, s: Seq<PluginModel>)
    ensures
        insert_by_name(x, s).len() == s.len() + 1,
    decreases s.len(),
{
    if s.len() > 0 && name_le(s[0], x) {
        lemma_insert_name_len(x, s.drop_first());
    }
}

proof fn lemma_sort_records_len(s: Seq<PluginModel>)
    ensures
        sort_by_name(s).len() == s.len(),
    decreases s.len(),
{
    if s.len() > 0 {
        lemma_sort_records_len(s.drop_last());
        lemma_insert_name_len(s.last(), sort_by_name(s.drop_last()));
    }
}

proof fn lemma_groups_of_total(rs: Seq<PluginModel>, ks: Seq<Seq<char>>)
    ensures
        total_records(ks.map_values(|k: Seq<char>| group_for(rs, k))) == sum_members(rs, ks),
    decreases ks.len(),
{
    if ks.len() > 0 {
        lemma_groups_of_total(rs, ks.drop_last());
        let gs = ks.map_values(|k: Seq<char>| group_for(rs, k));
        assert(gs.drop_last() =~= ks.drop_last().map_values(|k: Seq<char>| group_for(rs, k)));
        assert(gs.last() == group_for(rs, ks.last()));
        let mem = members_of(rs, ks.last());
        let disp = display_of(mem);
        lemma_sort_records_len(mem.map_values(|p: PluginModel| with_manufacturer(p, disp)));
    }
}

proof fn lemma_cons_total(a: GroupModel, t: Seq<GroupModel>)
    ensures
        total_records(seq![a] + t) == a.plugins.len() + total_records(t),
    decreases t.len(),
{
    if t.len() == 0 {
        assert((seq![a] + t) =~= seq![a]);
        assert(seq![a].drop_last() =~= Seq::<GroupModel>::empty());
        assert(total_records(Seq::<GroupModel>::empty()) == 0);
        assert(total_records(t) == 0);
    } else {
        lemma_cons_total(a, t.drop_last());
        assert((seq![a] + t).drop_last() =~= seq![a] + t.drop_last());
        assert((seq![a] + t).last() == t.last());
        assert(total_records(t) == total_records(t.drop_last()) + t.last().plugins.len());
    }
}

proof fn lemma_insert_group_total(x: GroupModel, s: Seq<GroupModel>)
    ensures
        total_records(insert_group(x, s)) == total_records(s) + x.plugins.len(),
    decreases s.len(),
{
    if s.len() == 0 {
        lemma_cons_total(x, s);
    } else if group_le(s[0], x) {
        lemma_insert_group_total(x, s.drop_first());
        lemma_cons_total(s[0], insert_group(x, s.drop_first()));
        lemma_cons_total(s[0], s.drop_first());
        assert(seq![s[0]] + s.drop_first() =~= s);
    } else {
        lemma_cons_total(x, s);
    }
}

proof fn lemma_sort_groups_total(s: Seq<GroupModel>)
    ensures
        total_records(sort_groups(s)) == total_records(s),
    decreases s.len(),
{
    if s.len() > 0 {
        lemma_sort_groups_total(s.drop_last());
        lemma_insert_group_total(s.last(), sort_groups(s.drop_last()));
    }
}

/// No record is lost or invented on the way into the inventory: the
/// groups together hold exactly one record per scanned record.
pub proof fn lemma_records_conserved(rs: Seq<PluginModel>)
    ensures
        total_records(inventory_spec(rs)) == rs.len(),
{
    lemma_keys_partition(rs);
    lemma_groups_of_total(rs, keys_of(rs));
    lemma_sort_groups_total(groups_of(rs));
}

proof fn lemma_map_multiset<A, B>(s1: Seq<A>, s2: Seq<A>, f: spec_fn(A) -> B)
    requires
        s1.to_multiset() == s2.to_multiset(),
    ensures
        s1.map_values(f).to_multiset() == s2.map_values(f).to_multiset(),
    decreases s1.len(),
{
    broadcast use vstd::seq_lib::group_to_multiset_ensures;
    broadcast use vstd::multiset::group_multiset_axioms;

    s1.to_multiset_ensures();
    s2.to_multiset_ensures();
    if s1.len() == 0 {
        assert(s2.len() == 0);
        s1.map_values(f).to_multiset_ensures();
        s2.map_values(f).to_multiset_ensures();
        assert forall|y: B|
            s1.map_values(f).to_multiset().count(y) == s2.map_values(f).to_multiset().count(
            y,
        ) by {
            assert(s1.map_values(f).to_multiset().count(y) <= s1.map_values(f).to_multiset().len());
            assert(s2.map_values(f).to_multiset().count(y) <= s2.map_values(f).to_multiset().len());
        }
        assert(s1.map_values(f).to_multiset() =~= s2.map_values(f).to_multiset());
    } else {
        let dl = s1.drop_last();
        let x = s1.last();
        assert(dl.push(x) =~= s1);
        assert(s1.to_multiset() =~= dl.to_multiset().insert(x));
        assert(s1.to_multiset().count(x) > 0);
        assert(s2.to_multiset().count(x) > 0);
        assert(s2.contains(x));
        let j = choose|j: int| 0 <= j < s2.len() && s2[j] == x;
        let s2r = s2.remove(j);
        s2.remove_ensures(j);
        assert(s2r.to_multiset() =~= s2.to_multiset().remove(x));
        assert(s2r.to_multiset() =~= dl.to_multiset());
        lemma_map_multiset(dl, s2r, f);
        assert(s1.map_values(f) =~= dl.map_values(f).push(f(x)));
        assert(s1.map_values(f).to_multiset() =~= dl.map_values(f).to_multiset().insert(f(x)));
        let m2 = s2.map_values(f);
        assert(m2.remove(j) =~= s2r.map_values(f));
        assert(m2.remove(j).to_multiset() =~= m2.to_multiset().remove(m2[j]));
        assert(m2[j] == f(x));
        assert(m2.to_multiset().count(f(x)) > 0);
        assert(m2.to_multiset() =~= m2.to_multiset().remove(f(x)).insert(f(x)));
        assert(s1.map_values(f).to_multiset() =~= m2.to_multiset());
    }
}

proof fn lemma_members_count(rs: Seq<PluginModel>, k: Seq<char>, q: PluginModel)
    ensures
        members_of(rs, k).to_multiset().count(q) == if record_key(q) == k {
            rs.to_multiset().count(q)
        } else {
            0
        },
    decreases rs.len(),
{
    broadcast use vstd::seq_lib::group_to_multiset_ensures;
    broadcast use vstd::multiset::group_multiset_axioms;

    reveal(Seq::filter);
    if rs.len() == 0 {
        rs.to_multiset_ensures();
        members_of(rs, k).to_multiset_ensures();
        assert(members_of(rs, k).to_multiset().count(q) <= members_of(rs, k).to_multiset().len());
        assert(rs.to_multiset().count(q) <= rs.to_multiset().len());
    } else {
        let dl = rs.drop_last();
        let p = rs.last();
        lemma_members_count(dl, k, q);
        lemma_filter_push(dl, p, |r: PluginModel| record_key(r) == k);
        assert(dl.push(p) =~= rs);
        assert(rs.to_multiset() =~= dl.to_multiset().insert(p));
        if record_key(p) == k {
            assert(members_of(rs, k) == members_of(dl, k).push(p));
            assert(members_of(rs, k).to_multiset() =~= members_of(dl, k).to_multiset().insert(p));
        } else {
            assert(members_of(rs, k) == members_of(dl, k));
        }
    }
}

proof fn lemma_members_multiset(rs1: Seq<PluginModel>, rs2: Seq<PluginModel>, k: Seq<char>)
    requires
        rs1.to_multiset() == rs2.to_multiset(),
    ensures
        members_of(rs1, k).to_multiset() == members_of(rs2, k).to_multiset(),
{
    assert forall|q: PluginModel|
        members_of(rs1, k).to_multiset().count(q) == members_of(rs2, k).to_multiset().count(
        q,
    ) by {
        lemma_members_count(rs1, k, q);
        lemma_members_count(rs2, k, q);
    }
    assert(members_of(rs1, k).to_multiset() =~= members_of(rs2, k).to_multiset());
}

proof fn lemma_keys_contains(rs1: Seq<PluginModel>, rs2: Seq<PluginModel>, k: Seq<char>)
    requires
        rs1.to_multiset() == rs2.to_multiset(),
        keys_of(rs1).contains(k),
    ensures
        keys_of(rs2).contains(k),
{
    broadcast use vstd::seq_lib::group_to_multiset_ensures;

    let j = choose|j: int| 0 <= j < keys_of(rs1).len() && keys_of(rs1)[j] == k;
    lemma_key_indexed_member(rs1, j);
    let i = choose|i: int| 0 <= i < rs1.len() && record_key(#[trigger] rs1[i]) == k;
    rs1.lemma_filter_contains(|r: PluginModel| record_key(r) == k, i);
    assert(members_of(rs1, k).contains(rs1[i]));
    members_of(rs1, k).to_multiset_ensures();
    assert(members_of(rs1, k).to_multiset().count(rs1[i]) > 0);
    lemma_members_multiset(rs1, rs2, k);
    members_of(rs2, k).to_multiset_ensures();
    assert(members_of(rs2, k).contains(rs1[i]));
    let w = choose|w: int|
        0 <= w < members_of(rs2, k).len() && members_of(rs2, k)[w] == rs1[i];
    rs2.lemma_filter_pred(|r: PluginModel| record_key(r) == k, w);
    let f2 = members_of(rs2, k);
    lemma_filter_to_set_rec(rs2, |r: PluginModel| record_key(r) == k, rs1[i]);
    let z = choose|z: int| 0 <= z < rs2.len() && rs2[z] == rs1[i];
    lemma_keys_cover(rs2, z);
}

/// Every filtered element is an element of the source.
proof fn lemma_filter_to_set_rec<A>(s: Seq<A>, p: spec_fn(A) -> bool, y: A)
    requires
        s.filter(p).contains(y),
    ensures
        s.contains(y),
    decreases s.len(),
{
    reveal(Seq::filter);
    if s.len() > 0 {
        let dl = s.drop_last();
        lemma_filter_push(dl, s.last(), p);
        assert(dl.push(s.last()) =~= s);
        let f = s.filter(p);
        let i = choose|i: int| 0 <= i < f.len() && f[i] == y;
        if p(s.last()) && i == f.len() - 1 {
            assert(s[s.len() - 1] == y);
        } else {
            assert(dl.filter(p).contains(y));
            lemma_filter_to_set_rec(dl, p, y);
            let w = choose|w: int| 0 <= w < dl.len() && dl[w] == y;
            assert(s[w] == y);
        }
    }
}

proof fn lemma_insert_name_multiset(x: PluginModel, s: Seq<PluginModel>)
    ensures
        insert_by_name(x, s).to_multiset() == s.to_multiset().insert(x),
    decreases s.len(),
{
    broadcast use vstd::seq_lib::group_to_multiset_ensures;
    broadcast use vstd::multiset::group_multiset_axioms;

    if s.len() == 0 {
        lemma_cons_multiset(x, s);
        assert(seq![x] + s =~= insert_by_name(x, s));
    } else if name_le(s[0], x) {
        lemma_insert_name_multiset(x, s.drop_first());
        lemma_cons_multiset(s[0], insert_by_name(x, s.drop_first()));
        lemma_cons_multiset(s[0], s.drop_first());
        assert(seq![s[0]] + s.drop_first() =~= s);
        assert(insert_by_name(x, s).to_multiset() =~= s.to_multiset().insert(x));
    } else {
        lemma_cons_multiset(x, s);
    }
}

proof fn lemma_sort_name_multiset(s: Seq<PluginModel>)
    ensures
        sort_by_name(s).to_multiset() == s.to_multiset(),
    decreases s.len(),
{
    broadcast use vstd::seq_lib::group_to_multiset_ensures;

    if s.len() > 0 {
        lemma_sort_name_multiset(s.drop_last());
        lemma_insert_name_multiset(s.last(), sort_by_name(s.drop_last()));
        assert(s =~= s.drop_last().push(s.last()));
        assert(s.to_multiset() =~= s.drop_last().to_multiset().insert(s.last()));
    }
}

/// Two scans with the same record multiset agree on each key's finished
/// group: the same canonical display name, and the same records up to
/// order (manufacturers rewritten alike).
proof fn lemma_group_for_align(rs1: Seq<PluginModel>, rs2: Seq<PluginModel>, k: Seq<char>)
    requires
        rs1.to_multiset() == rs2.to_multiset(),
        keys_of(rs1).contains(k),
    ensures
        group_for(rs1, k).manufacturer == group_for(rs2, k).manufacturer,
        group_for(rs1, k).plugins.to_multiset() == group_for(rs2, k).plugins.to_multiset(),
{
    broadcast use vstd::seq_lib::group_to_multiset_ensures;

    let mem1 = members_of(rs1, k);
    let mem2 = members_of(rs2, k);
    lemma_members_multiset(rs1, rs2, k);
    let j = choose|j: int| 0 <= j < keys_of(rs1).len() && keys_of(rs1)[j] == k;
    lemma_key_indexed_member(rs1, j);
    let i = choose|i: int| 0 <= i < rs1.len() && record_key(#[trigger] rs1[i]) == k;
    rs1.lemma_filter_contains(|r: PluginModel| record_key(r) == k, i);
    assert(mem1.contains(rs1[i]));
    assert(mem1.len() > 0);
    mem1.to_multiset_ensures();
    mem2.to_multiset_ensures();
    assert(mem2.len() == mem1.len());
    lemma_map_multiset(mem1, mem2, |p: PluginModel| p.manufacturer);
    assert(manufacturers_of(mem1).to_multiset() == manufacturers_of(mem2).to_multiset());
    assert(manufacturers_of(mem1).len() > 0);
    lemma_winner_order_independent(manufacturers_of(mem1), manufacturers_of(mem2));
    let disp = display_of(mem1);
    assert(display_of(mem2) == disp);
    lemma_map_multiset(mem1, mem2, |p: PluginModel| with_manufacturer(p, disp));
    lemma_sort_name_multiset(mem1.map_values(|p: PluginModel| with_manufacturer(p, disp)));
    lemma_sort_name_multiset(mem2.map_values(|p: PluginModel| with_manufacturer(p, disp)));
}

/// Some group of the list carries the given display name.
pub open spec fn has_display(g: Seq<GroupModel>, d: Seq<char>) -> bool {
    exists|j: int| 0 <= j < g.len() && (#[trigger] g[j]).manufacturer == d
}

#[verifier::rlimit(100)]
proof fn lemma_sorted_unique_align(g1: Seq<GroupModel>, g2: Seq<GroupModel>)
    requires
        groups_sorted(g1),
        groups_sorted(g2),
        forall|i: int, j: int|
            0 <= i < j < g1.len() ==> (#[trigger] g1[i]).manufacturer != (
            #[trigger] g1[j]).manufacturer,
        forall|i: int, j: int|
            0 <= i < j < g2.len() ==> (#[trigger] g2[i]).manufacturer != (
            #[trigger] g2[j]).manufacturer,
        g1.len() == g2.len(),
        forall|i: int| 0 <= i < g1.len() ==> has_display(g2, (#[trigger] g1[i]).manufacturer),
        forall|j: int| 0 <= j < g2.len() ==> has_display(g1, (#[trigger] g2[j]).manufacturer),
    ensures
        forall|i: int|
            0 <= i < g1.len() ==> (#[trigger] g1[i]).manufacturer == g2[i].manufacturer,
    decreases g1.len(),
{
    if g1.len() > 0 {
        let d1 = g1[0].manufacturer;
        let d2 = g2[0].manufacturer;
        assert(has_display(g2, d1));
        assert(has_display(g1, d2));
        let j = choose|j: int| 0 <= j < g2.len() && (#[trigger] g2[j]).manufacturer == d1;
        let i = choose|i: int| 0 <= i < g1.len() && (#[trigger] g1[i]).manufacturer == d2;
        if j > 0 {
            assert(group_le(g2[0], g2[j]));
        }
        if i > 0 {
            assert(group_le(g1[0], g1[i]));
        }
        if i > 0 && j > 0 {
            lemma_lex_le_antisym(d1, d2);
        }
        assert(d1 == d2);
        let t1 = g1.drop_first();
        let t2 = g2.drop_first();
        assert forall|a: int, b: int|
            0 <= a < b < t1.len() implies group_le(#[trigger] t1[a], #[trigger] t1[b]) by {
            assert(t1[a] == g1[a + 1]);
            assert(t1[b] == g1[b + 1]);
        }
        assert forall|a: int, b: int|
            0 <= a < b < t2.len() implies group_le(#[trigger] t2[a], #[trigger] t2[b]) by {
            assert(t2[a] == g2[a + 1]);
            assert(t2[b] == g2[b + 1]);
        }
        assert forall|a: int, b: int|
            0 <= a < b < t1.len() implies (#[trigger] t1[a]).manufacturer != (
        #[trigger] t1[b]).manufacturer by {
            assert(t1[a] == g1[a + 1]);
            assert(t1[b] == g1[b + 1]);
        }
        assert forall|a: int, b: int|
            0 <= a < b < t2.len() implies (#[trigger] t2[a]).manufacturer != (
        #[trigger] t2[b]).manufacturer by {
            assert(t2[a] == g2[a + 1]);
            assert(t2[b] == g2[b + 1]);
        }
        assert forall|a: int|
            0 <= a < t1.len() implies has_display(t2, (#[trigger] t1[a]).manufacturer) by {
            assert(t1[a] == g1[a + 1]);
            assert(has_display(g2, g1[a + 1].manufacturer));
            let jj = choose|jj: int|
                0 <= jj < g2.len() && (#[trigger] g2[jj]).manufacturer == g1[a + 1].manufacturer;
            assert(g1[0].manufacturer != g1[a + 1].manufacturer);
            assert(jj != 0);
            assert(t2[jj - 1].manufacturer == t1[a].manufacturer);
        }
        assert forall|b: int|
            0 <= b < t2.len() implies has_display(t1, (#[trigger] t2[b]).manufacturer) by {
            assert(t2[b] == g2[b + 1]);
            assert(has_display(g1, g2[b + 1].manufacturer));
            let ii = choose|ii: int|
                0 <= ii < g1.len() && (#[trigger] g1[ii]).manufacturer == g2[b + 1].manufacturer;
            assert(g2[0].manufacturer != g2[b + 1].manufacturer);
            assert(ii != 0);
            assert(t1[ii - 1].manufacturer == t2[b].manufacturer);
        }
        lemma_sorted_unique_align(t1, t2);
        assert forall|w: int|
            0 <= w < g1.len() implies (#[trigger] g1[w]).manufacturer == g2[w].manufacturer by {
            if w > 0 {
                assert(t1[w - 1].manufacturer == t2[w - 1].manufacturer);
                assert(t1[w - 1] == g1[w]);
                assert(t2[w - 1] == g2[w]);
            }
        }
    }
}

/// Scans that saw the same records in any order build the same map:
/// equally many groups, the same canonical display name at every
/// position, and the same records (manufacturers rewritten alike) in
/// every group up to record order.
#[verifier::rlimit(100)]
pub proof fn lemma_inventory_order_independent(rs1: Seq<PluginModel>, rs2: Seq<PluginModel>)
    requires
        rs1.to_multiset() == rs2.to_multiset(),
    ensures
        inventory_spec(rs1).len() == inventory_spec(rs2).len(),
        forall|g: int|
            0 <= g < inventory_spec(rs1).len() ==> (#[trigger] inventory_spec(
                rs1,
            )[g]).manufacturer == inventory_spec(rs2)[g].manufacturer,
        forall|g: int|
            0 <= g < inventory_spec(rs1).len() ==> (#[trigger] inventory_spec(
                rs1,
            )[g]).plugins.to_multiset() == inventory_spec(rs2)[g].plugins.to_multiset(),
{
    broadcast use vstd::seq_lib::group_to_multiset_ensures;

    let inv1 = inventory_spec(rs1);
    let inv2 = inventory_spec(rs2);
    let gs1 = groups_of(rs1);
    let gs2 = groups_of(rs2);
    lemma_sort_groups_multiset(gs1);
    lemma_sort_groups_multiset(gs2);
    inv1.to_multiset_ensures();
    inv2.to_multiset_ensures();
    gs1.to_multiset_ensures();
    gs2.to_multiset_ensures();
    lemma_keys_distinct(rs1);
    lemma_keys_distinct(rs2);
    assert forall|k: Seq<char>|
        keys_of(rs1).to_set().contains(k) == keys_of(rs2).to_set().contains(k) by {
        if keys_of(rs1).contains(k) {
            lemma_keys_contains(rs1, rs2, k);
        }
        if keys_of(rs2).contains(k) {
            lemma_keys_contains(rs2, rs1, k);
        }
    }
    assert(keys_of(rs1).to_set() =~= keys_of(rs2).to_set());
    keys_of(rs1).unique_seq_to_set();
    keys_of(rs2).unique_seq_to_set();
    assert(keys_of(rs1).len() == keys_of(rs2).len());
    assert(inv1.len() == inv2.len());
    lemma_inventory_sorted(rs1);
    lemma_inventory_sorted(rs2);
    lemma_display_names_unique(rs1);
    lemma_display_names_unique(rs2);
    assert forall|i: int|
        0 <= i < inv1.len() implies has_display(inv2, (#[trigger] inv1[i]).manufacturer) by {
        lemma_sort_groups_members(gs1, i);
        let a = choose|a: int| 0 <= a < gs1.len() && gs1[a] == inv1[i];
        assert(gs1[a] == group_for(rs1, keys_of(rs1)[a]));
        let k = keys_of(rs1)[a];
        assert(keys_of(rs1).contains(k));
        lemma_keys_contains(rs1, rs2, k);
        let b = choose|b: int| 0 <= b < keys_of(rs2).len() && keys_of(rs2)[b] == k;
        lemma_group_for_align(rs1, rs2, k);
        assert(gs2[b] == group_for(rs2, k));
        assert(gs2[b].manufacturer == inv1[i].manufacturer);
        assert(gs2.to_multiset().count(gs2[b]) > 0);
        assert(inv2.to_multiset().count(gs2[b]) > 0);
        assert(inv2.contains(gs2[b]));
        let j = choose|j: int| 0 <= j < inv2.len() && inv2[j] == gs2[b];
        assert(inv2[j].manufacturer == inv1[i].manufacturer);
    }
    assert forall|j: int|
        0 <= j < inv2.len() implies has_display(inv1, (#[trigger] inv2[j]).manufacturer) by {
        lemma_sort_groups_members(gs2, j);
        let a = choose|a: int| 0 <= a < gs2.len() && gs2[a] == inv2[j];
        assert(gs2[a] == group_for(rs2, keys_of(rs2)[a]));
        let k = keys_of(rs2)[a];
        assert(keys_of(rs2).contains(k));
        lemma_keys_contains(rs2, rs1, k);
        let b = choose|b: int| 0 <= b < keys_of(rs1).len() && keys_of(rs1)[b] == k;
        lemma_group_for_align(rs2, rs1, k);
        assert(gs1[b] == group_for(rs1, k));
        assert(gs1[b].manufacturer == inv2[j].manufacturer);
        assert(gs1.to_multiset().count(gs1[b]) > 0);
        assert(inv1.to_multiset().count(gs1[b]) > 0);
        assert(inv1.contains(gs1[b]));
        let i = choose|i: int| 0 <= i < inv1.len() && inv1[i] == gs1[b];
        assert(inv1[i].manufacturer == inv2[j].manufacturer);
    }
    lemma_sorted_unique_align(inv1, inv2);
    assert forall|g: int|
        0 <= g < inv1.len() implies (#[trigger] inv1[g]).plugins.to_multiset()
        == inv2[g].plugins.to_multiset() by {
        lemma_sort_groups_members(gs1, g);
        let a = choose|a: int| 0 <= a < gs1.len() && gs1[a] == inv1[g];
        assert(gs1[a] == group_for(rs1, keys_of(rs1)[a]));
        lemma_sort_groups_members(gs2, g);
        let b = choose|b: int| 0 <= b < gs2.len() && gs2[b] == inv2[g];
        assert(gs2[b] == group_for(rs2, keys_of(rs2)[b]));
        lemma_display_determines_key(rs1, a);
        lemma_display_determines_key(rs2, b);
        assert(inv1[g].manufacturer == inv2[g].manufacturer);
        assert(keys_of(rs1)[a] == keys_of(rs2)[b]);
        let k = keys_of(rs1)[a];
        assert(keys_of(rs1).contains(k));
        lemma_group_for_align(rs1, rs2, k);
    }
}

proof fn lemma_beats_trans(ms: Seq<Seq<char>>, a: Seq<char>, b: Seq<char>, c: Seq<char>)
    requires
        cand_beats(ms, a, b),
        cand_beats(ms, b, c),
    ensures
        cand_beats(ms, a, c),
{
    if str_lt(a, b) && str_lt(b, c) {
        lemma_str_lt_trans(a, b, c);
    }
}

proof fn lemma_winner_upto_sound(ms: Seq<Seq<char>>, n: int)
    requires
        1 <= n <= ms.len(),
    ensures
        exists|w: int| 0 <= w < n && ms[w] == winner_upto(ms, n),
        forall|i: int| 0 <= i < n ==> !cand_beats(ms, #[trigger] ms[i], winner_upto(ms, n)),
    decreases n,
{
    if n == 1 {
        assert(ms[0] == winner_upto(ms, 1));
        lemma_str_lt_irrefl(ms[0]);
    } else {
        lemma_winner_upto_sound(ms, n - 1);
        let prev = winner_upto(ms, n - 1);
        let cur = winner_upto(ms, n);
        if cand_beats(ms, ms[n - 1], prev) {
            assert(cur == ms[n - 1]);
            assert forall|i: int| 0 <= i < n implies !cand_beats(ms, #[trigger] ms[i], cur) by {
                if i < n - 1 && cand_beats(ms, ms[i], cur) {
                    lemma_beats_trans(ms, ms[i], cur, prev);
                }
                if ms[i] == cur {
                    lemma_str_lt_irrefl(cur);
                }
            }
        } else {
            assert(cur == prev);
        }
    }
}

proof fn lemma_count_is_multiset_count(ms: Seq<Seq<char>>, m: Seq<char>)
    ensures
        count_in(ms, m) == ms.to_multiset().count(m),
    decreases ms.len(),
{
    broadcast use vstd::seq_lib::group_to_multiset_ensures;
    broadcast use vstd::multiset::group_multiset_axioms;
    broadcast use vstd::multiset::group_multiset_properties;

    if ms.len() == 0 {
        ms.to_multiset_ensures();
        assert(ms.to_multiset().count(m) <= ms.to_multiset().len());
    } else {
        lemma_count_is_multiset_count(ms.drop_last(), m);
        ms.drop_last().to_multiset_ensures();
        assert(ms.drop_last().push(ms.last()) =~= ms);
        assert(ms.to_multiset() =~= ms.drop_last().to_multiset().insert(ms.last()));
        if ms.last() == m {
            assert(ms.to_multiset().count(m) == ms.drop_last().to_multiset().count(m) + 1);
        } else {
            assert(ms.to_multiset().count(m) == ms.drop_last().to_multiset().count(m));
        }
    }
}

proof fn lemma_beats_total(ms: Seq<Seq<char>>, a: Seq<char>, b: Seq<char>)
    ensures
        a == b || cand_beats(ms, a, b) || cand_beats(ms, b, a),
{
    lemma_str_lt_connex(a, b);
}

/// The election never depends on the order candidates were seen in: two
/// candidate lists holding the same spellings the same number of times
/// elect the same canonical spelling.
pub proof fn lemma_winner_order_independent(ms1: Seq<Seq<char>>, ms2: Seq<Seq<char>>)
    requires
        ms1.to_multiset() == ms2.to_multiset(),
        ms1.len() > 0,
    ensures
        winner_spec(ms1) == winner_spec(ms2),
{
    broadcast use vstd::seq_lib::group_to_multiset_ensures;
    broadcast use vstd::multiset::group_multiset_axioms;

    ms1.to_multiset_ensures();
    ms2.to_multiset_ensures();
    assert(ms2.len() == ms1.len());
    lemma_winner_upto_sound(ms1, ms1.len() as int);
    lemma_winner_upto_sound(ms2, ms2.len() as int);
    let w1 = winner_spec(ms1);
    let w2 = winner_spec(ms2);
    if w1 != w2 {
        let i1 = choose|i: int| 0 <= i < ms1.len() && ms1[i] == w1;
        let i2 = choose|i: int| 0 <= i < ms2.len() && ms2[i] == w2;
        assert(ms1.contains(w1));
        assert(ms2.contains(w2));
        assert(ms2.to_multiset().count(w1) > 0);
        assert(ms2.contains(w1));
        assert(ms1.to_multiset().count(w2) > 0);
        assert(ms1.contains(w2));
        let j1 = choose|j: int| 0 <= j < ms2.len() && ms2[j] == w1;
        let j2 = choose|j: int| 0 <= j < ms1.len() && ms1[j] == w2;
        lemma_count_is_multiset_count(ms1, w1);
        lemma_count_is_multiset_count(ms2, w1);
        lemma_count_is_multiset_count(ms1, w2);
        lemma_count_is_multiset_count(ms2, w2);
        assert(count_in(ms1, w1) == count_in(ms2, w1));
        assert(count_in(ms1, w2) == count_in(ms2, w2));
        lemma_beats_total(ms1, w1, w2);
        if cand_beats(ms1, w1, w2) {
            assert(cand_beats(ms2, w1, w2));
            assert(!cand_beats(ms2, ms2[j1], w2));
            assert(false);
        } else {
            assert(cand_beats(ms1, w2, w1));
            assert(!cand_beats(ms1, ms1[j2], w1));
            assert(false);
        }
    }
}

/// The canonical-spelling vote is sound: the elected spelling is one of
/// the candidates; no candidate occurs strictly more often; on a top
/// occurrence count shared with a hyphen-free candidate, the winner is
/// itself hyphen-free; on an equal hyphen footing no tied candidate is
/// shorter; and on a full tie none is lexicographically smaller.
pub proof fn lemma_winner_sound(ms: Seq<Seq<char>>)
    requires
        ms.len() > 0,
    ensures
        ms.contains(winner_spec(ms)),
        forall|i: int|
            0 <= i < ms.len() ==> count_in(ms, #[trigger] ms[i]) <= count_in(
                ms,
                winner_spec(ms),
            ),
        forall|i: int|
            0 <= i < ms.len() && count_in(ms, #[trigger] ms[i]) == count_in(ms, winner_spec(ms))
                && !ms[i].contains('-') ==> !winner_spec(ms).contains('-'),
        forall|i: int|
            0 <= i < ms.len() && count_in(ms, #[trigger] ms[i]) == count_in(ms, winner_spec(ms))
                && ms[i].contains('-') == winner_spec(ms).contains('-') ==> winner_spec(
                ms,
            ).len() <= ms[i].len(),
        forall|i: int|
            0 <= i < ms.len() && count_in(ms, #[trigger] ms[i]) == count_in(ms, winner_spec(ms))
                && ms[i].contains('-') == winner_spec(ms).contains('-') && ms[i].len()
                == winner_spec(ms).len() ==> !str_lt(ms[i], winner_spec(ms)),
{
    lemma_winner_upto_sound(ms, ms.len() as int);
    let w = winner_spec(ms);
    assert forall|i: int| 0 <= i < ms.len() implies count_in(ms, #[trigger] ms[i]) <= count_in(
        ms,
        w,
    ) by {
        assert(!cand_beats(ms, ms[i], w));
    }
    assert forall|i: int|
        0 <= i < ms.len() && count_in(ms, #[trigger] ms[i]) == count_in(ms, w) && !ms[i].contains(
            '-',
        ) implies !w.contains('-') by {
        assert(!cand_beats(ms, ms[i], w));
    }
    assert forall|i: int|
        0 <= i < ms.len() && count_in(ms, #[trigger] ms[i]) == count_in(ms, w) && ms[i].contains(
            '-',
        ) == w.contains('-') implies w.len() <= ms[i].len() by {
        assert(!cand_beats(ms, ms[i], w));
    }
    assert forall|i: int|
        0 <= i < ms.len() && count_in(ms, #[trigger] ms[i]) == count_in(ms, w) && ms[i].contains(
            '-',
        ) == w.contains('-') && ms[i].len() == w.len() implies !str_lt(ms[i], w) by {
        assert(!cand_beats(ms, ms[i], w));
    }
}

/// How many members of `g` carry exactly the raw manufacturer string `m`.
fn count_manufacturer(g: &Vec<Plugin>, m: &Vec<char>) -> (r: usize)
    ensures
        r == count_in(manufacturers_of(crate::types::models(g@)), m@),
{
    let ghost ms = manufacturers_of(crate::types::models(g@));
    let mut cnt: usize = 0;
    let mut i: usize = 0;
    while i < g.len()
        invariant
            i <= g.len(),
            cnt <= i,
            ms == manufacturers_of(crate::types::models(g@)),
            ms.len() == g@.len(),
            forall|j: int| 0 <= j < g@.len() ==> ms[j] == g@[j].manufacturer@,
            cnt == count_in(ms.subrange(0, i as int), m@),
        decreases g.len() - i,
    {
        let mc = str_chars(g[i].manufacturer.as_str());
        proof {
            let pre1 = ms.subrange(0, i + 1 as int);
            assert(pre1 =~= ms.subrange(0, i as int).push(ms[i as int]));
            assert(pre1.drop_last() =~= ms.subrange(0, i as int));
            assert(pre1.last() == ms[i as int]);
        }
        if chars_eq(&mc, m) {
            cnt = cnt + 1;
        }
        i = i + 1;
    }
    proof {
        assert(ms.subrange(0, g@.len() as int) =~= ms);
    }
    cnt
}

/// Does the string contain a hyphen?
fn has_hyphen(m: &Vec<char>) -> (r: bool)
    ensures
        r == m@.contains('-'),
{
    let mut i: usize = 0;
    while i < m.len()
        invariant
            i <= m.len(),
            forall|j: int| 0 <= j < i ==> m@[j] != '-',
        decreases m.len() - i,
    {
        if m[i] == '-' {
            return true;
        }
        i = i + 1;
    }
    proof {
        assert(forall|j: int| 0 <= j < m@.len() ==> m@[j] != '-');
    }
    false
}

/// Does candidate `a` strictly beat candidate `b` for group `g`?
fn beats(g: &Vec<Plugin>, a: &Vec<char>, b: &Vec<char>) -> (r: bool)
    ensures
        r == cand_beats(manufacturers_of(crate::types::models(g@)), a@, b@),
{
    let ca = count_manufacturer(g, a);
    let cb = count_manufacturer(g, b);
    if ca != cb {
        ca > cb
    } else {
        let ha = has_hyphen(a);
        let hb = has_hyphen(b);
        if ha != hb {
            !ha
        } else if a.len() != b.len() {
            a.len() < b.len()
        } else {
            str_lt_chars(a, b)
        }
    }
}

proof fn lemma_str_lt_skip(a: Seq<char>, b: Seq<char>, i: int)
    requires
        0 <= i <= a.len(),
        i <= b.len(),
        forall|j: int| 0 <= j < i ==> a[j] == b[j],
    ensures
        str_lt(a, b) == str_lt(a.skip(i), b.skip(i)),
    decreases i,
{
    if i > 0 {
        assert(a[0] == b[0]);
        lemma_str_lt_skip(a.drop_first(), b.drop_first(), i - 1);
        assert(a.drop_first().skip(i - 1) =~= a.skip(i));
        assert(b.drop_first().skip(i - 1) =~= b.skip(i));
    } else {
        assert(a.skip(0) =~= a);
        assert(b.skip(0) =~= b);
    }
}

/// Strict lexicographic comparison of two character vectors.
fn str_lt_chars(a: &Vec<char>, b: &Vec<char>) -> (r: bool)
    ensures
        r == str_lt(a@, b@),
{
    let n = if a.len() < b.len() {
        a.len()
    } else {
        b.len()
    };
    let mut i: usize = 0;
    while i < n
        invariant
            i <= n,
            n == if a@.len() < b@.len() {
                a@.len()
            } else {
                b@.len()
            },
            forall|j: int| 0 <= j < i ==> a@[j] == b@[j],
        decreases n - i,
    {
        let ca = a[i];
        let cb = b[i];
        if ca != cb {
            proof {
                lemma_str_lt_skip(a@, b@, i as int);
            }
            return ca < cb;
        }
        i = i + 1;
    }
    proof {
        lemma_str_lt_skip(a@, b@, n as int);
    }
    a.len() < b.len()
}

/// Elects the canonical original spelling for a non-empty group: the most
/// frequent raw manufacturer string, ties broken toward no hyphen, then
/// toward the shorter string, then toward the earliest seen.
fn pick_winner(g: &Vec<Plugin>) -> (r: Vec<char>)
    requires
        g@.len() > 0,
    ensures
        r@ == winner_spec(manufacturers_of(crate::types::models(g@))),
{
    let ghost ms = manufacturers_of(crate::types::models(g@));
    let mut best = str_chars(g[0].manufacturer.as_str());
    let mut i: usize = 1;
    while i < g.len()
        invariant
            1 <= i <= g.len(),
            g@.len() > 0,
            ms == manufacturers_of(crate::types::models(g@)),
            ms.len() == g@.len(),
            forall|j: int| 0 <= j < g@.len() ==> ms[j] == g@[j].manufacturer@,
            best@ == winner_upto(ms, i as int),
        decreases g.len() - i,
    {
        let c = str_chars(g[i].manufacturer.as_str());
        if beats(g, &c, &best) {
            best = c;
        }
        i = i + 1;
    }
    best
}

proof fn lemma_lex_le_skip(a: Seq<char>, b: Seq<char>, i: int)
    requires
        0 <= i <= a.len(),
        i <= b.len(),
        forall|j: int| 0 <= j < i ==> a[j] == b[j],
    ensures
        lex_le(a, b) == lex_le(a.skip(i), b.skip(i)),
    decreases i,
{
    if i > 0 {
        assert(a[0] == b[0]);
        assert(a.len() > 0 && b.len() > 0);
        lemma_lex_le_skip(a.drop_first(), b.drop_first(), i - 1);
        assert(a.drop_first().skip(i - 1) =~= a.skip(i));
        assert(b.drop_first().skip(i - 1) =~= b.skip(i));
    } else {
        assert(a.skip(0) =~= a);
        assert(b.skip(0) =~= b);
    }
}

/// Lexicographic comparison of two character vectors.
fn lex_le_chars(a: &Vec<char>, b: &Vec<char>) -> (r: bool)
    ensures
        r == lex_le(a@, b@),
{
    let n = if a.len() < b.len() {
        a.len()
    } else {
        b.len()
    };
    let mut i: usize = 0;
    while i < n
        invariant
            i <= n,
            n == if a@.len() < b@.len() {
                a@.len()
            } else {
                b@.len()
            },
            forall|j: int| 0 <= j < i ==> a@[j] == b@[j],
        decreases n - i,
    {
        let ca = a[i];
        let cb = b[i];
        if ca != cb {
            proof {
                lemma_lex_le_skip(a@, b@, i as int);
            }
            return ca < cb;
        }
        i = i + 1;
    }
    proof {
        lemma_lex_le_skip(a@, b@, n as int);
    }
    a.len() <= b.len()
}

/// Record comparison, executable form.
fn name_le_exec(a: &Plugin, b: &Plugin) -> (r: bool)
    ensures
        r == name_le(a@, b@),
{
    let an = crate::names::lower_chars(&str_chars(a.name.as_str()));
    let bn = crate::names::lower_chars(&str_chars(b.name.as_str()));
    lex_le_chars(&an, &bn)
}

proof fn lemma_insert_record_at(x: PluginModel, s: Seq<PluginModel>, pos: int)
    requires
        0 <= pos <= s.len(),
        forall|j: int| 0 <= j < pos ==> name_le(s[j], x),
        pos == s.len() || !name_le(s[pos], x),
    ensures
        insert_by_name(x, s) == s.take(pos) + seq![x] + s.skip(pos),
    decreases pos,
{
    if pos == 0 {
        if s.len() == 0 {
            assert(insert_by_name(x, s) =~= s.take(0) + seq![x] + s.skip(0));
        } else {
            assert(insert_by_name(x, s) =~= s.take(0) + seq![x] + s.skip(0));
        }
    } else {
        assert(name_le(s[0], x));
        lemma_insert_record_at(x, s.drop_first(), pos - 1);
        assert(seq![s[0]] + (s.drop_first().take(pos - 1) + seq![x] + s.drop_first().skip(pos - 1))
            =~= s.take(pos) + seq![x] + s.skip(pos));
    }
}

/// Inserts one record into an already-sorted group, after its equals.
fn insert_record(out: &mut Vec<Plugin>, x: Plugin)
    ensures
        crate::types::models(final(out)@) == insert_by_name(x@, crate::types::models(old(out)@)),
{
    let ghost s = crate::types::models(old(out)@);
    let mut pos: usize = 0;
    while pos < out.len() && name_le_exec(&out[pos], &x)
        invariant
            pos <= out.len(),
            out@ == old(out)@,
            s == crate::types::models(out@),
            s.len() == out@.len(),
            forall|j: int| 0 <= j < out@.len() ==> s[j] == out@[j]@,
            forall|j: int| 0 <= j < pos ==> name_le(s[j], x@),
        decreases out.len() - pos,
    {
        pos = pos + 1;
    }
    proof {
        lemma_insert_record_at(x@, s, pos as int);
    }
    out.insert(pos, x);
    proof {
        assert(crate::types::models(out@) =~= s.take(pos as int) + seq![x@] + s.skip(pos as int));
    }
}

/// Sorts a group's records case-insensitively by name; ties keep scan order.
fn sort_records(v: Vec<Plugin>) -> (r: Vec<Plugin>)
    ensures
        crate::types::models(r@) == sort_by_name(crate::types::models(v@)),
{
    let mut out: Vec<Plugin> = Vec::new();
    let mut i: usize = 0;
    while i < v.len()
        invariant
            i <= v.len(),
            crate::types::models(out@) == sort_by_name(crate::types::models(v@.subrange(0, i as int))),
        decreases v.len() - i,
    {
        let x = v[i].clone();
        proof {
            let pre = crate::types::models(v@.subrange(0, i as int));
            let pre1 = crate::types::models(v@.subrange(0, i + 1 as int));
            assert(pre1 =~= pre.push(v@[i as int]@));
            assert(pre1.drop_last() =~= pre);
        }
        insert_record(&mut out, x);
        i = i + 1;
    }
    proof {
        assert(v@.subrange(0, v@.len() as int) =~= v@);
    }
    out
}

proof fn lemma_insert_group_at(x: GroupModel, s: Seq<GroupModel>, pos: int)
    requires
        0 <= pos <= s.len(),
        forall|j: int| 0 <= j < pos ==> group_le(s[j], x),
        pos == s.len() || !group_le(s[pos], x),
    ensures
        insert_group(x, s) == s.take(pos) + seq![x] + s.skip(pos),
    decreases pos,
{
    if pos == 0 {
        assert(insert_group(x, s) =~= s.take(0) + seq![x] + s.skip(0));
    } else {
        assert(group_le(s[0], x));
        lemma_insert_group_at(x, s.drop_first(), pos - 1);
        assert(seq![s[0]] + (s.drop_first().take(pos - 1) + seq![x] + s.drop_first().skip(pos - 1))
            =~= s.take(pos) + seq![x] + s.skip(pos));
    }
}

/// Inserts one finished group at its place in display-name order.
fn insert_group_exec(out: &mut Vec<ManufacturerGroup>, x: ManufacturerGroup)
    ensures
        crate::types::group_models(final(out)@) == insert_group(
            x@,
            crate::types::group_models(old(out)@),
        ),
{
    let ghost s = crate::types::group_models(old(out)@);
    let xm = str_chars(x.manufacturer.as_str());
    let mut pos: usize = 0;
    while pos < out.len() && lex_le_chars(&str_chars(out[pos].manufacturer.as_str()), &xm)
        invariant
            pos <= out.len(),
            out@ == old(out)@,
            s == crate::types::group_models(out@),
            s.len() == out@.len(),
            xm@ == x.manufacturer@,
            forall|j: int| 0 <= j < out@.len() ==> s[j] == out@[j]@,
            forall|j: int| 0 <= j < pos ==> group_le(s[j], x@),
        decreases out.len() - pos,
    {
        pos = pos + 1;
    }
    proof {
        lemma_insert_group_at(x@, s, pos as int);
    }
    out.insert(pos, x);
    proof {
        assert(crate::types::group_models(out@) =~= s.take(pos as int) + seq![x@] + s.skip(
            pos as int,
        ));
    }
}

/// The views of a vector of key strings.
pub open spec fn key_views(ks: Seq<Vec<char>>) -> Seq<Seq<char>> {
    ks.map_values(|k: Vec<char>| k@)
}

/// Every record's key appears among the keys of its sequence.
proof fn lemma_keys_cover(rs: Seq<PluginModel>, j: int)
    requires
        0 <= j < rs.len(),
    ensures
        keys_of(rs).contains(record_key(rs[j])),
    decreases rs.len(),
{
    let dl = rs.drop_last();
    if j == rs.len() - 1 {
        if !keys_of(dl).contains(record_key(rs.last())) {
            assert(keys_of(rs).last() == record_key(rs.last()));
        }
    } else {
        lemma_keys_cover(dl, j);
        let ks = keys_of(dl);
        let jj = choose|jj: int| 0 <= jj < ks.len() && ks[jj] == record_key(dl[j]);
        if keys_of(dl).contains(record_key(rs.last())) {
            assert(keys_of(rs)[jj] == record_key(rs[j]));
        } else {
            assert(keys_of(rs)[jj] == record_key(rs[j]));
        }
    }
}

/// A key that is not among a sequence's keys has no members in it.
proof fn lemma_members_empty(rs: Seq<PluginModel>, k: Seq<char>)
    requires
        !keys_of(rs).contains(k),
    ensures
        members_of(rs, k) == Seq::<PluginModel>::empty(),
    decreases rs.len(),
{
    reveal(Seq::filter);
    if rs.len() > 0 {
        let dl = rs.drop_last();
        if keys_of(dl).contains(k) {
            let jj = choose|jj: int|
                0 <= jj < keys_of(dl).len() && keys_of(dl)[jj] == k;
            assert(keys_of(rs)[jj] == k);
            assert(false);
        }
        lemma_members_empty(dl, k);
        if record_key(rs.last()) == k {
            if !keys_of(dl).contains(k) {
                assert(keys_of(rs).last() == k);
            }
            assert(false);
        }
        lemma_filter_push(dl, rs.last(), |p: PluginModel| record_key(p) == k);
        assert(dl.push(rs.last()) =~= rs);
    }
}

/// The position of `kc` among the collected keys, if present.
fn find_key(keys: &Vec<Vec<char>>, kc: &Vec<char>) -> (r: Option<usize>)
    ensures
        match r {
            Some(i) => i < keys@.len() && keys@[i as int]@ == kc@,
            None => forall|j: int| 0 <= j < keys@.len() ==> keys@[j]@ != kc@,
        },
{
    let mut j: usize = 0;
    while j < keys.len()
        invariant
            j <= keys@.len(),
            forall|jj: int| 0 <= jj < j ==> keys@[jj]@ != kc@,
        decreases keys.len() - j,
    {
        if chars_eq(&keys[j], kc) {
            return Some(j);
        }
        j = j + 1;
    }
    None
}

/// Splits the records into non-empty per-key groups, keys in order of
/// first appearance, each group holding exactly its key's records in
/// scan order.
fn build_groups(records: Vec<Plugin>) -> (r: (Vec<Vec<char>>, Vec<Vec<Plugin>>))
    ensures
        r.0@.len() == r.1@.len(),
        key_views(r.0@) == keys_of(crate::types::models(records@)),
        forall|a: int|
            0 <= a < r.0@.len() ==> crate::types::models(#[trigger] r.1@[a]@) == members_of(
                crate::types::models(records@),
                r.0@[a]@,
            ),
        forall|a: int| 0 <= a < r.1@.len() ==> #[trigger] r.1@[a]@.len() > 0,
{
    let ghost rs = crate::types::models(records@);
    let mut keys: Vec<Vec<char>> = Vec::new();
    let mut groups: Vec<Vec<Plugin>> = Vec::new();
    let mut i: usize = 0;
    while i < records.len()
        invariant
            i <= records@.len(),
            rs == crate::types::models(records@),
            rs.len() == records@.len(),
            forall|j: int| 0 <= j < records@.len() ==> rs[j] == records@[j]@,
            keys@.len() == groups@.len(),
            key_views(keys@) == keys_of(rs.subrange(0, i as int)),
            forall|a: int, b: int| 0 <= a < b < keys@.len() ==> keys@[a]@ != keys@[b]@,
            forall|a: int|
                0 <= a < keys@.len() ==> crate::types::models(#[trigger] groups@[a]@) == members_of(
                    rs.subrange(0, i as int),
                    keys@[a]@,
                ),
            forall|a: int| 0 <= a < groups@.len() ==> #[trigger] groups@[a]@.len() > 0,
        decreases records.len() - i,
    {
        let p = records[i].clone();
        let kc = norm_key_chars(&str_chars(p.manufacturer.as_str()));
        let ghost prefix = rs.subrange(0, i as int);
        let ghost prefix1 = rs.subrange(0, i + 1 as int);
        let ghost pm = rs[i as int];
        proof {
            assert(prefix1 =~= prefix.push(pm));
            assert(prefix1.drop_last() =~= prefix);
            assert(kc@ == record_key(pm));
        }
        match find_key(&keys, &kc) {
            Some(idx) => {
                proof {
                    assert(key_views(keys@)[idx as int] == keys@[idx as int]@);
                    assert(keys_of(prefix).contains(record_key(pm)));
                    assert(keys_of(prefix1) == keys_of(prefix));
                }
                let mut g = groups.remove(idx);
                g.push(p);
                let ghost gnew = g@;
                groups.insert(idx, g);
                proof {
                    let old_groups = groups@.remove(idx as int).insert(idx as int, groups@[idx as int]);
                    assert(groups@ =~= groups@);
                    assert forall|a: int| 0 <= a < keys@.len() implies crate::types::models(
                        #[trigger] groups@[a]@,
                    ) == members_of(prefix1, keys@[a]@) by {
                        lemma_filter_push(
                            prefix,
                            pm,
                            |q: PluginModel| record_key(q) == keys@[a]@,
                        );
                        if a == idx {
                            assert(crate::types::models(gnew) =~= crate::types::models(
                                gnew.drop_last(),
                            ).push(pm));
                        } else {
                            assert(keys@[a]@ != keys@[idx as int]@);
                            assert(record_key(pm) != keys@[a]@);
                        }
                    }
                }
            },
            None => {
                proof {
                    if keys_of(prefix).contains(record_key(pm)) {
                        let jj = choose|jj: int|
                            0 <= jj < keys_of(prefix).len() && keys_of(prefix)[jj] == record_key(
                                pm,
                            );
                        assert(keys@[jj]@ == record_key(pm));
                        assert(false);
                    }
                    lemma_members_empty(prefix, kc@);
                }
                keys.push(kc);
                let mut g: Vec<Plugin> = Vec::new();
                g.push(p);
                groups.push(g);
                proof {
                    assert(key_views(keys@) =~= keys_of(prefix).push(record_key(pm)));
                    assert(keys_of(prefix1) == keys_of(prefix).push(record_key(pm)));
                    assert forall|a: int| 0 <= a < keys@.len() implies crate::types::models(
                        #[trigger] groups@[a]@,
                    ) == members_of(prefix1, keys@[a]@) by {
                        lemma_filter_push(
                            prefix,
                            pm,
                            |q: PluginModel| record_key(q) == keys@[a]@,
                        );
                        if a == keys@.len() - 1 {
                            assert(crate::types::models(groups@[a]@) =~= Seq::<
                                PluginModel,
                            >::empty().push(pm));
                        } else {
                            assert(keys@[a]@ != record_key(pm));
                        }
                    }
                }
            },
        }
        i = i + 1;
    }
    proof {
        assert(rs.subrange(0, rs.len() as int) =~= rs);
    }
    (keys, groups)
}

/// Rewrites every record of one group to the canonical display name.
fn rewrite_group(g: Vec<Plugin>, disp: &String) -> (r: Vec<Plugin>)
    ensures
        crate::types::models(r@) == crate::types::models(g@).map_values(
            |p: PluginModel| with_manufacturer(p, disp@),
        ),
{
    let mut r: Vec<Plugin> = Vec::new();
    let mut j: usize = 0;
    while j < g.len()
        invariant
            j <= g@.len(),
            r@.len() == j,
            forall|a: int|
                0 <= a < j ==> #[trigger] r@[a]@ == with_manufacturer(g@[a]@, disp@),
        decreases g.len() - j,
    {
        let mut p = g[j].clone();
        p.manufacturer = disp.clone();
        r.push(p);
        j = j + 1;
    }
    proof {
        assert(crate::types::models(r@) =~= crate::types::models(g@).map_values(
            |p: PluginModel| with_manufacturer(p, disp@),
        ));
    }
    r
}

/// Builds the whole inventory from one scan's records: groups them by the
/// manufacturer grouping key, elects each group's canonical display name
/// by majority vote over the raw spellings (ties broken toward no hyphen,
/// then the shorter spelling), rewrites every record to it, sorts records
/// case-insensitively by name, and sorts groups by display name.
pub fn build_inventory(records: Vec<Plugin>) -> (r: Vec<ManufacturerGroup>)
    ensures
        crate::types::group_models(r@) == inventory_spec(crate::types::models(records@)),
{
    let ghost rs = crate::types::models(records@);
    let pair = build_groups(records);
    let mut keys = pair.0;
    let mut groups = pair.1;
    let ghost keys0 = keys@;
    let ghost n = keys@.len();
    let mut fin: Vec<ManufacturerGroup> = Vec::new();
    let ghost mut c: int = 0;
    while groups.len() > 0
        invariant
            0 <= c,
            c + groups@.len() == n,
            keys@.len() == groups@.len(),
            keys0.len() == n,
            keys@ =~= keys0.skip(c),
            key_views(keys0) == keys_of(rs),
            forall|a: int|
                0 <= a < groups@.len() ==> crate::types::models(#[trigger] groups@[a]@)
                    == members_of(rs, keys0[a + c]@),
            forall|a: int| 0 <= a < groups@.len() ==> #[trigger] groups@[a]@.len() > 0,
            fin@.len() == c,
            forall|a: int|
                0 <= a < c ==> #[trigger] fin@[a]@ == group_for(rs, keys0[a]@),
        decreases groups.len(),
    {
        let ghost pre_groups = groups@;
        let k = keys.remove(0);
        let g = groups.remove(0);
        let ghost mem = members_of(rs, keys0[c]@);
        proof {
            assert(k@ == keys0[c]@);
            assert(crate::types::models(pre_groups[0]@) == members_of(rs, keys0[0 + c]@));
            assert(crate::types::models(g@) == mem);
        }
        let w = pick_winner(&g);
        let disp_chars = clean_chars(&w);
        let disp = chars_string(&disp_chars);
        let rewritten = rewrite_group(g, &disp);
        let sorted = sort_records(rewritten);
        let group = ManufacturerGroup { manufacturer: disp, plugins: sorted };
        proof {
            assert(group@ == group_for(rs, keys0[c]@));
            assert forall|a: int| 0 <= a < groups@.len() implies crate::types::models(
                #[trigger] groups@[a]@,
            ) == members_of(rs, keys0[a + (c + 1)]@) by {
                assert(groups@[a] == pre_groups[a + 1]);
                assert(crate::types::models(pre_groups[a + 1]@) == members_of(
                    rs,
                    keys0[(a + 1) + c]@,
                ));
            }
            assert(keys@ =~= keys0.skip(c + 1));
        }
        fin.push(group);
        proof {
            c = c + 1;
        }
    }
    proof {
        assert(crate::types::group_models(fin@) =~= groups_of(rs));
    }
    let ghost fin0 = crate::types::group_models(fin@);
    let mut out: Vec<ManufacturerGroup> = Vec::new();
    let ghost mut d: int = 0;
    while fin.len() > 0
        invariant
            0 <= d,
            d + fin@.len() == fin0.len(),
            forall|a: int|
                0 <= a < fin@.len() ==> #[trigger] fin@[a]@ == fin0[d + a],
            crate::types::group_models(out@) == sort_groups(fin0.subrange(0, d)),
        decreases fin.len(),
    {
        let g = fin.remove(0);
        proof {
            let pre = fin0.subrange(0, d);
            let pre1 = fin0.subrange(0, d + 1);
            assert(pre1 =~= pre.push(fin0[d]));
            assert(pre1.drop_last() =~= pre);
            assert(g@ == fin0[d + 0]);
        }
        insert_group_exec(&mut out, g);
        proof {
            d = d + 1;
        }
    }
    proof {
        assert(fin0.subrange(0, fin0.len() as int) =~= fin0);
        assert(crate::types::group_models(out@) == sort_groups(groups_of(rs)));
    }
    out
}

} // verus!
