use vstd::prelude::*;

use vstd::hash_map::StringHashMap;

use crate::common::{Dict, HasPrototypeBase, ItemSubgroup, PrototypeBase};
use crate::text::{
    chars_of, compare_chars, lemma_seq_lt_asymmetric, lemma_seq_lt_irreflexive, lemma_seq_lt_total, lemma_seq_lt_transitive,
    seq_le, seq_lt, string_views,
};

verus! {

/// Groups, then subgroups, then prototype names, in display order.
pub type OrderInfo = Vec<(String, Vec<(String, Vec<String>)>)>;

/// The name of the group that collects prototypes whose group is unknown.
pub open spec fn other_group() -> Seq<char> {
    seq!['o', 't', 'h', 'e', 'r']
}

/// Where a prototype is listed: the group's name and the subgroup's name.
pub open spec fn placement(
    p: PrototypeBase,
    groups: Map<Seq<char>, PrototypeBase>,
    subgroups: Map<Seq<char>, ItemSubgroup>,
) -> (Seq<char>, Seq<char>) {
    if subgroups.contains_key(p.subgroup@) {
        let sg = subgroups[p.subgroup@];
        if groups.contains_key(sg.group@) {
            (groups[sg.group@].name@, sg.base.name@)
        } else {
            (other_group(), sg.base.name@)
        }
    } else {
        (other_group(), Seq::<char>::empty())
    }
}

/// The order string of the group listed under `g`, if there is such a group.
pub open spec fn group_order(g: Seq<char>, groups: Map<Seq<char>, PrototypeBase>) -> Option<
    Seq<char>,
> {
    if groups.contains_key(g) {
        Some(groups[g].order@)
    } else {
        None
    }
}

/// The order string of the subgroup listed under `s`, if there is such a subgroup.
pub open spec fn subgroup_order(s: Seq<char>, subgroups: Map<Seq<char>, ItemSubgroup>) -> Option<
    Seq<char>,
> {
    if subgroups.contains_key(s) {
        Some(subgroups[s].base.order@)
    } else {
        None
    }
}

/// The order of `Option<&String>`: absent first, then by the strings.
pub open spec fn opt_lt(a: Option<Seq<char>>, b: Option<Seq<char>>) -> bool {
    match (a, b) {
        (None, Some(_)) => true,
        (Some(x), Some(y)) => seq_lt(x, y),
        _ => false,
    }
}

pub open spec fn opt_le(a: Option<Seq<char>>, b: Option<Seq<char>>) -> bool {
    opt_lt(a, b) || a == b
}

/// The order of prototypes within a subgroup: by order string, then by name.
pub open spec fn proto_le(p: PrototypeBase, q: PrototypeBase) -> bool {
    seq_lt(p.order@, q.order@) || (p.order@ == q.order@ && seq_le(p.name@, q.name@))
}

pub open spec fn protos_of<T: HasPrototypeBase>(v: Seq<T>) -> Seq<PrototypeBase> {
    v.map_values(|t: T| t.prototype_base())
}

/// `idx` enumerates exactly the prototypes of `protos` placed at `(g, s)`,
/// each once, sorted by order string and then by name, and `names` holds
/// their names in that order.
pub open spec fn members_witness(
    idx: Seq<usize>,
    names: Seq<Seq<char>>,
    protos: Seq<PrototypeBase>,
    groups: Map<Seq<char>, PrototypeBase>,
    subgroups: Map<Seq<char>, ItemSubgroup>,
    g: Seq<char>,
    s: Seq<char>,
) -> bool {
    &&& idx.len() == names.len()
    &&& forall|t: int|
        0 <= t < idx.len() ==> {
            &&& #[trigger] idx[t] < protos.len()
            &&& placement(protos[idx[t] as int], groups, subgroups) == (g, s)
            &&& names[t] == protos[idx[t] as int].name@
        }
    &&& forall|t: int, u: int| 0 <= t < u < idx.len() ==> idx[t] != idx[u]
    &&& forall|k: int|
        0 <= k < protos.len() && #[trigger] placement(protos[k], groups, subgroups) == (g, s)
            ==> idx.contains(k as usize)
    &&& forall|t: int, u: int|
        0 <= t < u < idx.len() ==> proto_le(protos[idx[t] as int], protos[idx[u] as int])
}

/// `names` lists exactly the prototypes of `protos` placed at `(g, s)`,
/// each once, sorted by order string and then by name.
pub open spec fn lists_members(
    names: Seq<Seq<char>>,
    protos: Seq<PrototypeBase>,
    groups: Map<Seq<char>, PrototypeBase>,
    subgroups: Map<Seq<char>, ItemSubgroup>,
    g: Seq<char>,
    s: Seq<char>,
) -> bool {
    exists|idx: Seq<usize>| #[trigger] members_witness(idx, names, protos, groups, subgroups, g, s)
}

/// The group and subgroup under which each prototype is listed.
pub open spec fn placements(
    protos: Seq<PrototypeBase>,
    groups: Map<Seq<char>, PrototypeBase>,
    subgroups: Map<Seq<char>, ItemSubgroup>,
) -> Seq<(Seq<char>, Seq<char>)> {
    protos.map_values(|p: PrototypeBase| placement(p, groups, subgroups))
}

pub open spec fn first_parts<A, B>(s: Seq<(A, B)>) -> Seq<A> {
    s.map_values(|e: (A, B)| e.0)
}

/// What `get_order_info` returns for these prototypes: every group that
/// holds a prototype once, sorted by the group's order; in each, every
/// subgroup that holds one of its prototypes once, sorted by the
/// subgroup's order; in each, the names of its prototypes sorted by
/// order and name.
pub open spec fn is_order_info_of(
    info: Seq<(Seq<char>, Seq<(Seq<char>, Seq<Seq<char>>)>)>,
    protos: Seq<PrototypeBase>,
    groups: Map<Seq<char>, PrototypeBase>,
    subgroups: Map<Seq<char>, ItemSubgroup>,
) -> bool {
    &&& first_parts(info).no_duplicates()
    &&& forall|g: Seq<char>| #[trigger]
        first_parts(info).contains(g) <==> first_parts(
            placements(protos, groups, subgroups),
        ).contains(g)
    &&& forall|i: int, j: int|
        0 <= i < j < info.len() ==> opt_le(
            group_order(info[i].0, groups),
            group_order(info[j].0, groups),
        )
    &&& forall|i: int|
        0 <= i < info.len() ==> is_group_entry_of(#[trigger] info[i], protos, groups, subgroups)
}

pub open spec fn is_group_entry_of(
    entry: (Seq<char>, Seq<(Seq<char>, Seq<Seq<char>>)>),
    protos: Seq<PrototypeBase>,
    groups: Map<Seq<char>, PrototypeBase>,
    subgroups: Map<Seq<char>, ItemSubgroup>,
) -> bool {
    let g = entry.0;
    let subs = entry.1;
    &&& first_parts(subs).no_duplicates()
    &&& forall|x: Seq<char>| #[trigger]
        first_parts(subs).contains(x) <==> placements(protos, groups, subgroups).contains((g, x))
    &&& forall|a: int, b: int|
        0 <= a < b < subs.len() ==> opt_le(
            subgroup_order(subs[a].0, subgroups),
            subgroup_order(subs[b].0, subgroups),
        )
    &&& forall|a: int|
        0 <= a < subs.len() ==> lists_members(
            #[trigger] subs[a].1,
            protos,
            groups,
            subgroups,
            g,
            subs[a].0,
        )
}

pub proof fn lemma_opt_lt_transitive(a: Option<Seq<char>>, b: Option<Seq<char>>, c: Option<Seq<char>>)
    requires
        opt_lt(a, b),
        opt_lt(b, c),
    ensures
        opt_lt(a, c),
{
    if a is Some {
        lemma_seq_lt_transitive(a->0, b->0, c->0);
    }
}

pub proof fn lemma_opt_total(a: Option<Seq<char>>, b: Option<Seq<char>>)
    ensures
        opt_lt(a, b) || opt_lt(b, a) || a == b,
{
    if a is Some && b is Some {
        lemma_seq_lt_total(a->0, b->0);
    }
}

pub proof fn lemma_proto_le_transitive(p: PrototypeBase, q: PrototypeBase, r: PrototypeBase)
    requires
        proto_le(p, q),
        proto_le(q, r),
    ensures
        proto_le(p, r),
{
    if seq_lt(p.order@, q.order@) && seq_lt(q.order@, r.order@) {
        lemma_seq_lt_transitive(p.order@, q.order@, r.order@);
    }
    if p.order@ == q.order@ && q.order@ == r.order@ {
        if seq_lt(p.name@, q.name@) && seq_lt(q.name@, r.name@) {
            lemma_seq_lt_transitive(p.name@, q.name@, r.name@);
        }
    }
}

pub open spec fn opt_view(o: Option<Vec<char>>) -> Option<Seq<char>> {
    match o {
        Some(v) => Some(v@),
        None => None,
    }
}

fn opt_less(a: &Option<Vec<char>>, b: &Option<Vec<char>>) -> (r: bool)
    ensures
        r == opt_lt(opt_view(*a), opt_view(*b)),
{
    match (a, b) {
        (None, Some(_)) => true,
        (Some(x), Some(y)) => compare_chars(x, y) == -1,
        _ => false,
    }
}

/// The order string under `key` in a table, as characters.
fn order_in_groups(groups: &Dict<PrototypeBase>, key: &String) -> (r: Option<Vec<char>>)
    ensures
        opt_view(r) == group_order(key@, groups@),
{
    match groups.get(key.as_str()) {
        Some(g) => Some(chars_of(g.order.as_str())),
        None => None,
    }
}

fn order_in_subgroups(subgroups: &Dict<ItemSubgroup>, key: &String) -> (r: Option<Vec<char>>)
    ensures
        opt_view(r) == subgroup_order(key@, subgroups@),
{
    match subgroups.get(key.as_str()) {
        Some(sg) => Some(chars_of(sg.base.order.as_str())),
        None => None,
    }
}

pub open spec fn opt_views(v: Seq<Option<Vec<char>>>) -> Seq<Option<Seq<char>>> {
    v.map_values(|o: Option<Vec<char>>| opt_view(o))
}

pub open spec fn sorted_opt(s: Seq<Option<Seq<char>>>) -> bool {
    forall|i: int, j: int| 0 <= i < j < s.len() ==> opt_le(s[i], s[j])
}

/// Inserts `k` with order `o` after every key whose order is not above `o`.
fn insert_sorted(
    keys: &mut Vec<String>,
    ords: &mut Vec<Option<Vec<char>>>,
    k: String,
    o: Option<Vec<char>>,
)
    requires
        old(keys).len() == old(ords).len(),
        sorted_opt(opt_views(old(ords)@)),
    ensures
        final(keys).len() == final(ords).len(),
        sorted_opt(opt_views(final(ords)@)),
        exists|pos: int|
            0 <= pos <= old(keys).len() && final(keys)@ == old(keys)@.insert(pos, k)
                && final(ords)@ == old(ords)@.insert(pos, o),
{
    let mut pos: usize = 0;
    while pos < ords.len() && !opt_less(&o, &ords[pos])
        invariant
            pos <= ords.len(),
            ords@ == old(ords)@,
            keys@ == old(keys)@,
            keys.len() == ords.len(),
            forall|t: int| 0 <= t < pos ==> opt_le(#[trigger] opt_view(ords@[t]), opt_view(o)),
        decreases ords.len() - pos,
    {
        proof {
            lemma_opt_total(opt_view(o), opt_view(ords@[pos as int]));
        }
        pos = pos + 1;
    }
    let ghost old_ords = opt_views(ords@);
    proof {
        if pos < ords.len() {
            assert forall|t: int| pos <= t < ords.len() implies opt_le(
                opt_view(o),
                #[trigger] opt_view(ords@[t]),
            ) by {
                assert(old_ords[pos as int] == opt_view(ords@[pos as int]));
                assert(old_ords[t] == opt_view(ords@[t]));
                if t > pos {
                    assert(opt_le(old_ords[pos as int], old_ords[t]));
                    if opt_lt(old_ords[pos as int], old_ords[t]) {
                        lemma_opt_lt_transitive(opt_view(o), old_ords[pos as int], old_ords[t]);
                    }
                }
            }
        }
    }
    keys.insert(pos, k);
    ords.insert(pos, o);
    proof {
        let nv = opt_views(ords@);
        assert forall|i: int, j: int| 0 <= i < j < nv.len() implies opt_le(nv[i], nv[j]) by {
            assert(nv[i] == opt_view(ords@[i]));
            assert(nv[j] == opt_view(ords@[j]));
            if i < pos && j < pos {
                assert(old_ords[i] == nv[i] && old_ords[j] == nv[j]);
            } else if i < pos && j == pos {
            } else if i < pos && j > pos {
                assert(old_ords[i] == nv[i] && old_ords[j - 1] == nv[j]);
                assert(opt_le(old_ords[i], old_ords[j - 1]));
            } else if i == pos {
                assert(old_ords[j - 1] == nv[j]);
                assert(opt_view(old(ords)@[j - 1]) == nv[j]);
            } else {
                assert(old_ords[i - 1] == nv[i] && old_ords[j - 1] == nv[j]);
            }
        }
    }
}


fn other_name() -> (r: String)
    ensures
        r@ == other_group(),
{
    let r = "other".to_string();
    proof {
        reveal_strlit("other");
        assert(r@ =~= other_group());
    }
    r
}

/// Where each prototype is listed: its group key and its subgroup key.
fn placements_of<T: HasPrototypeBase>(
    vec: &Vec<T>,
    groups: &Dict<PrototypeBase>,
    subgroups: &Dict<ItemSubgroup>,
) -> (r: (Vec<String>, Vec<String>))
    ensures
        r.0.len() == vec.len(),
        r.1.len() == vec.len(),
        forall|k: int|
            0 <= k < vec.len() ==> (#[trigger] r.0@[k]@, r.1@[k]@) == placement(
                vec@[k].prototype_base(),
                groups@,
                subgroups@,
            ),
{
    let mut gks: Vec<String> = Vec::new();
    let mut sks: Vec<String> = Vec::new();
    let mut i: usize = 0;
    while i < vec.len()
        invariant
            i <= vec.len(),
            gks.len() == i,
            sks.len() == i,
            forall|k: int|
                0 <= k < i ==> (#[trigger] gks@[k]@, sks@[k]@) == placement(
                    vec@[k].prototype_base(),
                    groups@,
                    subgroups@,
                ),
        decreases vec.len() - i,
    {
        let b = vec[i].base();
        match subgroups.get(b.subgroup.as_str()) {
            Some(sg) => {
                match groups.get(sg.group.as_str()) {
                    Some(g) => {
                        gks.push(g.name.clone());
                    },
                    None => {
                        gks.push(other_name());
                    },
                }
                sks.push(sg.base.name.clone());
            },
            None => {
                gks.push(other_name());
                sks.push(String::new());
            },
        }
        i = i + 1;
    }
    (gks, sks)
}

/// Whether `s` occurs in `v`.
pub fn contains_string(v: &Vec<String>, s: &String) -> (r: bool)
    ensures
        r == exists|a: int| 0 <= a < v.len() && #[trigger] v@[a]@ == s@,
{
    let mut a: usize = 0;
    while a < v.len()
        invariant
            a <= v.len(),
            forall|t: int| 0 <= t < a ==> #[trigger] v@[t]@ != s@,
        decreases v.len() - a,
    {
        if v[a] == *s {
            return true;
        }
        a = a + 1;
    }
    false
}


/// Keys listed once each, in an order that their orders under `f` never
/// decrease.
pub open spec fn keyed_distinct_sorted(
    keys: Seq<String>,
    ords: Seq<Option<Vec<char>>>,
    f: spec_fn(Seq<char>) -> Option<Seq<char>>,
) -> bool {
    &&& keys.len() == ords.len()
    &&& sorted_opt(opt_views(ords))
    &&& forall|a: int| 0 <= a < keys.len() ==> opt_view(#[trigger] ords[a]) == f(keys[a]@)
    &&& string_views(keys).no_duplicates()
}

proof fn lemma_insert_contains(s: Seq<Seq<char>>, pos: int, x: Seq<char>, y: Seq<char>)
    requires
        0 <= pos <= s.len(),
    ensures
        s.insert(pos, x).contains(y) <==> (s.contains(y) || y == x),
{
    let t = s.insert(pos, x);
    if s.contains(y) {
        let a = choose|a: int| 0 <= a < s.len() && s[a] == y;
        if a < pos {
            assert(t[a] == y);
        } else {
            assert(t[a + 1] == y);
        }
    }
    if y == x {
        assert(t[pos] == y);
    }
    if t.contains(y) {
        let a = choose|a: int| 0 <= a < t.len() && t[a] == y;
        if a < pos {
            assert(s[a] == y);
        } else if a > pos {
            assert(s[a - 1] == y);
        }
    }
}

/// Adds `k` with order `o` unless it is already listed.
fn add_distinct_sorted(
    keys: &mut Vec<String>,
    ords: &mut Vec<Option<Vec<char>>>,
    k: &String,
    o: Option<Vec<char>>,
    Ghost(f): Ghost<spec_fn(Seq<char>) -> Option<Seq<char>>>,
)
    requires
        keyed_distinct_sorted(old(keys)@, old(ords)@, f),
        opt_view(o) == f(k@),
    ensures
        keyed_distinct_sorted(final(keys)@, final(ords)@, f),
        forall|y: Seq<char>|
            #[trigger] string_views(final(keys)@).contains(y) <==> (string_views(
                old(keys)@,
            ).contains(y) || y == k@),
{
    let ghost old_keys = keys@;
    let ghost old_ords = ords@;
    if contains_string(keys, k) {
        proof {
            assert forall|y: Seq<char>| #[trigger]
                string_views(keys@).contains(y) <==> (string_views(old_keys).contains(y) || y
                    == k@) by {
                if y == k@ {
                    let a = choose|a: int| 0 <= a < keys.len() && #[trigger] keys@[a]@ == k@;
                    assert(string_views(keys@)[a] == y);
                }
            }
        }
        return;
    }
    insert_sorted(keys, ords, k.clone(), o);
    proof {
        let pos = choose|pos: int|
            0 <= pos <= old_keys.len() && keys@ == old_keys.insert(pos, *k) && ords@
                == old_ords.insert(pos, o);
        let sv = string_views(old_keys);
        assert(string_views(keys@) =~= sv.insert(pos, k@));
        assert forall|y: Seq<char>| #[trigger]
            string_views(keys@).contains(y) <==> (sv.contains(y) || y == k@) by {
            lemma_insert_contains(sv, pos, k@, y);
        }
        assert forall|a: int| 0 <= a < keys.len() implies opt_view(#[trigger] ords@[a]) == f(
            keys@[a]@,
        ) by {
            if a < pos {
                assert(ords@[a] == old_ords[a] && keys@[a] == old_keys[a]);
            } else if a > pos {
                assert(ords@[a] == old_ords[a - 1] && keys@[a] == old_keys[a - 1]);
            }
        }
        assert(!sv.contains(k@)) by {
            if sv.contains(k@) {
                let a = choose|a: int| 0 <= a < sv.len() && sv[a] == k@;
                assert(old_keys[a]@ == k@);
            }
        }
        let nv = string_views(keys@);
        assert forall|a: int, b: int| 0 <= a < nv.len() && 0 <= b < nv.len() && a != b implies nv[a]
            != nv[b] by {
            if a == pos {
                if b < pos { assert(nv[b] == sv[b]); } else { assert(nv[b] == sv[b - 1]); }
            } else if b == pos {
                if a < pos { assert(nv[a] == sv[a]); } else { assert(nv[a] == sv[a - 1]); }
            } else {
                let a1 = if a < pos { a } else { a - 1 };
                let b1 = if b < pos { b } else { b - 1 };
                assert(nv[a] == sv[a1] && nv[b] == sv[b1]);
            }
        }
    }
}

/// The distinct group keys, sorted by the groups' order.
fn distinct_sorted_groups(gks: &Vec<String>, groups: &Dict<PrototypeBase>) -> (r: Vec<String>)
    ensures
        string_views(r@).no_duplicates(),
        forall|x: Seq<char>| #[trigger] string_views(r@).contains(x) <==> string_views(gks@).contains(x),
        forall|a: int, b: int|
            0 <= a < b < r.len() ==> opt_le(group_order(r@[a]@, groups@), group_order(r@[b]@, groups@)),
{
    let ghost f = |x: Seq<char>| group_order(x, groups@);
    let mut keys: Vec<String> = Vec::new();
    let mut ords: Vec<Option<Vec<char>>> = Vec::new();
    let mut i: usize = 0;
    proof {
        assert(string_views(keys@) =~= Seq::<Seq<char>>::empty());
    }
    while i < gks.len()
        invariant
            i <= gks.len(),
            f == (|x: Seq<char>| group_order(x, groups@)),
            keyed_distinct_sorted(keys@, ords@, f),
            forall|x: Seq<char>| #[trigger] string_views(keys@).contains(x) <==> string_views(gks@).take(i as int).contains(x),
        decreases gks.len() - i,
    {
        let o = order_in_groups(groups, &gks[i]);
        add_distinct_sorted(&mut keys, &mut ords, &gks[i], o, Ghost(f));
        proof {
            let g = string_views(gks@);
            assert(g.take(i + 1) =~= g.take(i as int).push(gks@[i as int]@));
            assert forall|x: Seq<char>| #[trigger] g.take(i + 1).contains(x) <==> (g.take(i as int).contains(x) || x == gks@[i as int]@) by {
                lemma_insert_contains(g.take(i as int), i as int, gks@[i as int]@, x);
                assert(g.take(i as int).insert(i as int, gks@[i as int]@) =~= g.take(i + 1));
            }
        }
        i = i + 1;
    }
    proof {
        assert(string_views(gks@).take(gks.len() as int) =~= string_views(gks@));
        assert forall|a: int, b: int| 0 <= a < b < keys.len() implies opt_le(group_order(keys@[a]@, groups@), group_order(keys@[b]@, groups@)) by {
            assert(opt_views(ords@)[a] == opt_view(ords@[a]));
            assert(opt_views(ords@)[b] == opt_view(ords@[b]));
        }
    }
    keys
}

/// The distinct subgroup keys of the prototypes in group `g`, sorted by
/// the subgroups' order.
fn distinct_sorted_subgroups(
    gks: &Vec<String>,
    sks: &Vec<String>,
    g: &String,
    subgroups: &Dict<ItemSubgroup>,
) -> (r: Vec<String>)
    requires
        gks.len() == sks.len(),
    ensures
        string_views(r@).no_duplicates(),
        forall|x: Seq<char>| #[trigger]
            string_views(r@).contains(x) <==> exists|k: int|
                0 <= k < gks.len() && gks@[k]@ == g@ && #[trigger] sks@[k]@ == x,
        forall|a: int, b: int|
            0 <= a < b < r.len() ==> opt_le(
                subgroup_order(r@[a]@, subgroups@),
                subgroup_order(r@[b]@, subgroups@),
            ),
{
    let ghost f = |x: Seq<char>| subgroup_order(x, subgroups@);
    let mut keys: Vec<String> = Vec::new();
    let mut ords: Vec<Option<Vec<char>>> = Vec::new();
    let mut i: usize = 0;
    proof {
        assert(string_views(keys@) =~= Seq::<Seq<char>>::empty());
    }
    while i < gks.len()
        invariant
            i <= gks.len(),
            gks.len() == sks.len(),
            f == (|x: Seq<char>| subgroup_order(x, subgroups@)),
            keyed_distinct_sorted(keys@, ords@, f),
            forall|x: Seq<char>| #[trigger]
                string_views(keys@).contains(x) <==> exists|k: int|
                    0 <= k < i && gks@[k]@ == g@ && #[trigger] sks@[k]@ == x,
        decreases gks.len() - i,
    {
        if gks[i] == *g {
            let o = order_in_subgroups(subgroups, &sks[i]);
            add_distinct_sorted(&mut keys, &mut ords, &sks[i], o, Ghost(f));
            proof {
                assert forall|x: Seq<char>| #[trigger]
                    string_views(keys@).contains(x) <==> exists|k: int|
                        0 <= k < i + 1 && gks@[k]@ == g@ && #[trigger] sks@[k]@ == x by {
                    if x == sks@[i as int]@ {
                        assert(gks@[i as int]@ == g@);
                    }
                }
            }
        } else {
            proof {
                assert forall|x: Seq<char>| #[trigger]
                    string_views(keys@).contains(x) <==> exists|k: int|
                        0 <= k < i + 1 && gks@[k]@ == g@ && #[trigger] sks@[k]@ == x by {
                    if exists|k: int| 0 <= k < i + 1 && gks@[k]@ == g@ && #[trigger] sks@[k]@ == x {
                        let k = choose|k: int| 0 <= k < i + 1 && gks@[k]@ == g@ && #[trigger] sks@[k]@ == x;
                        assert(k < i);
                    }
                }
            }
        }
        i = i + 1;
    }
    proof {
        assert forall|a: int, b: int| 0 <= a < b < keys.len() implies opt_le(
            subgroup_order(keys@[a]@, subgroups@),
            subgroup_order(keys@[b]@, subgroups@),
        ) by {
            assert(opt_views(ords@)[a] == opt_view(ords@[a]));
            assert(opt_views(ords@)[b] == opt_view(ords@[b]));
        }
    }
    keys
}

/// Strictly before in the order of prototypes within a subgroup.
pub open spec fn proto_lt(p: PrototypeBase, q: PrototypeBase) -> bool {
    seq_lt(p.order@, q.order@) || (p.order@ == q.order@ && seq_lt(p.name@, q.name@))
}

proof fn lemma_proto_lt_or_le(p: PrototypeBase, q: PrototypeBase)
    ensures
        proto_lt(p, q) || proto_le(q, p),
        proto_lt(p, q) ==> proto_le(p, q),
        proto_lt(p, q) ==> !proto_le(q, p),
{
    lemma_seq_lt_total(p.order@, q.order@);
    lemma_seq_lt_total(p.name@, q.name@);
    if proto_lt(p, q) && proto_le(q, p) {
        if seq_lt(p.order@, q.order@) {
            if seq_lt(q.order@, p.order@) {
                lemma_seq_lt_transitive(p.order@, q.order@, p.order@);
            }
            lemma_seq_lt_irreflexive(p.order@);
        } else {
            if seq_lt(q.name@, p.name@) {
                lemma_seq_lt_transitive(p.name@, q.name@, p.name@);
            }
            lemma_seq_lt_irreflexive(p.name@);
            lemma_seq_lt_irreflexive(p.order@);
        }
    }
}

/// The order and name strings of each prototype, as characters.
pub open spec fn keys_match(
    okeys: Seq<Vec<char>>,
    nkeys: Seq<Vec<char>>,
    protos: Seq<PrototypeBase>,
) -> bool {
    &&& okeys.len() == protos.len()
    &&& nkeys.len() == protos.len()
    &&& forall|k: int| 0 <= k < protos.len() ==> #[trigger] okeys[k]@ == protos[k].order@
    &&& forall|k: int| 0 <= k < protos.len() ==> #[trigger] nkeys[k]@ == protos[k].name@
}

/// Whether prototype `i` comes strictly before prototype `j`.
fn proto_less(
    okeys: &Vec<Vec<char>>,
    nkeys: &Vec<Vec<char>>,
    i: usize,
    j: usize,
    Ghost(protos): Ghost<Seq<PrototypeBase>>,
) -> (r: bool)
    requires
        okeys.len() == protos.len(),
        nkeys.len() == protos.len(),
        i < protos.len(),
        j < protos.len(),
        keys_match(okeys@, nkeys@, protos),
    ensures
        r == proto_lt(protos[i as int], protos[j as int]),
{
    let c = compare_chars(&okeys[i], &okeys[j]);
    if c == -1 {
        true
    } else if c == 1 {
        proof {
            lemma_seq_lt_asymmetric(protos[j as int].order@, protos[i as int].order@);
        }
        false
    } else {
        compare_chars(&nkeys[i], &nkeys[j]) == -1
    }
}

pub open spec fn sorted_members(idx: Seq<usize>, protos: Seq<PrototypeBase>) -> bool {
    &&& forall|t: int| 0 <= t < idx.len() ==> #[trigger] idx[t] < protos.len()
    &&& forall|t: int, u: int|
        0 <= t < u < idx.len() ==> proto_le(protos[idx[t] as int], protos[idx[u] as int])
}

/// Inserts index `x` after every index whose prototype is not after it.
fn insert_index_sorted(
    idx: &mut Vec<usize>,
    x: usize,
    okeys: &Vec<Vec<char>>,
    nkeys: &Vec<Vec<char>>,
    Ghost(protos): Ghost<Seq<PrototypeBase>>,
)
    requires
        okeys.len() == protos.len(),
        nkeys.len() == protos.len(),
        x < protos.len(),
        keys_match(okeys@, nkeys@, protos),
        sorted_members(old(idx)@, protos),
    ensures
        sorted_members(final(idx)@, protos),
        exists|pos: int| 0 <= pos <= old(idx).len() && final(idx)@ == old(idx)@.insert(pos, x),
{
    let mut pos: usize = 0;
    while pos < idx.len() && !proto_less(okeys, nkeys, x, idx[pos], Ghost(protos))
        invariant
            pos <= idx.len(),
            idx@ == old(idx)@,
            okeys.len() == protos.len(),
            nkeys.len() == protos.len(),
            x < protos.len(),
            keys_match(okeys@, nkeys@, protos),
            sorted_members(idx@, protos),
            forall|t: int| 0 <= t < pos ==> proto_le(protos[#[trigger] idx@[t] as int], protos[x as int]),
        decreases idx.len() - pos,
    {
        proof {
            lemma_proto_lt_or_le(protos[x as int], protos[idx@[pos as int] as int]);
        }
        pos = pos + 1;
    }
    let ghost old_idx = idx@;
    proof {
        if pos < idx.len() {
            lemma_proto_lt_or_le(protos[x as int], protos[idx@[pos as int] as int]);
            assert forall|t: int| pos <= t < idx.len() implies proto_le(
                protos[x as int],
                protos[#[trigger] idx@[t] as int],
            ) by {
                if t > pos {
                    lemma_proto_le_transitive(
                        protos[x as int],
                        protos[idx@[pos as int] as int],
                        protos[idx@[t] as int],
                    );
                }
            }
        }
    }
    idx.insert(pos, x);
    proof {
        let nv = idx@;
        assert forall|t: int| 0 <= t < nv.len() implies #[trigger] nv[t] < protos.len() by {
            if t < pos {
                assert(nv[t] == old_idx[t]);
            } else if t > pos {
                assert(nv[t] == old_idx[t - 1]);
            }
        }
        assert forall|t: int, u: int| 0 <= t < u < nv.len() implies proto_le(
            protos[nv[t] as int],
            protos[nv[u] as int],
        ) by {
            if t < pos && u < pos {
                assert(nv[t] == old_idx[t] && nv[u] == old_idx[u]);
            } else if t < pos && u == pos {
                assert(nv[t] == old_idx[t]);
            } else if t < pos {
                assert(nv[t] == old_idx[t] && nv[u] == old_idx[u - 1]);
            } else if t == pos {
                assert(nv[u] == old_idx[u - 1]);
            } else {
                assert(nv[t] == old_idx[t - 1] && nv[u] == old_idx[u - 1]);
            }
        }
    }
}

pub open spec fn placed_at(
    gks: Seq<String>,
    sks: Seq<String>,
    protos: Seq<PrototypeBase>,
    groups: Map<Seq<char>, PrototypeBase>,
    subgroups: Map<Seq<char>, ItemSubgroup>,
) -> bool {
    &&& gks.len() == protos.len()
    &&& sks.len() == protos.len()
    &&& forall|k: int|
        0 <= k < protos.len() ==> (#[trigger] gks[k]@, sks[k]@) == placement(
            protos[k],
            groups,
            subgroups,
        )
}

/// The indices of the prototypes placed at `(g, s)`, sorted by order and name.
fn members(
    okeys: &Vec<Vec<char>>,
    nkeys: &Vec<Vec<char>>,
    gks: &Vec<String>,
    sks: &Vec<String>,
    g: &String,
    s: &String,
    Ghost(protos): Ghost<Seq<PrototypeBase>>,
    Ghost(groups): Ghost<Map<Seq<char>, PrototypeBase>>,
    Ghost(subgroups): Ghost<Map<Seq<char>, ItemSubgroup>>,
) -> (idx: Vec<usize>)
    requires
        keys_match(okeys@, nkeys@, protos),
        placed_at(gks@, sks@, protos, groups, subgroups),
    ensures
        sorted_members(idx@, protos),
        forall|t: int, u: int| 0 <= t < u < idx.len() ==> idx@[t] != idx@[u],
        forall|t: int|
            0 <= t < idx.len() ==> placement(protos[#[trigger] idx@[t] as int], groups, subgroups)
                == (g@, s@),
        forall|k: int|
            0 <= k < protos.len() && #[trigger] placement(protos[k], groups, subgroups) == (g@, s@)
                ==> idx@.contains(k as usize),
{
    let mut idx: Vec<usize> = Vec::new();
    let mut i: usize = 0;
    while i < gks.len()
        invariant
            i <= gks.len(),
            keys_match(okeys@, nkeys@, protos),
            placed_at(gks@, sks@, protos, groups, subgroups),
            sorted_members(idx@, protos),
            forall|t: int| 0 <= t < idx.len() ==> #[trigger] idx@[t] < i,
            forall|t: int, u: int| 0 <= t < u < idx.len() ==> idx@[t] != idx@[u],
            forall|t: int|
                0 <= t < idx.len() ==> placement(protos[#[trigger] idx@[t] as int], groups, subgroups)
                    == (g@, s@),
            forall|k: int|
                0 <= k < i && #[trigger] placement(protos[k], groups, subgroups) == (g@, s@)
                    ==> idx@.contains(k as usize),
        decreases gks.len() - i,
    {
        proof {
            assert((gks@[i as int]@, sks@[i as int]@) == placement(protos[i as int], groups, subgroups));
        }
        if gks[i] == *g && sks[i] == *s {
            let ghost old_idx = idx@;
            insert_index_sorted(&mut idx, i, okeys, nkeys, Ghost(protos));
            proof {
                let pos = choose|pos: int| 0 <= pos <= old_idx.len() && idx@ == old_idx.insert(pos, i);
                assert forall|t: int| 0 <= t < idx.len() implies #[trigger] idx@[t] < i + 1 && placement(
                    protos[idx@[t] as int],
                    groups,
                    subgroups,
                ) == (g@, s@) by {
                    if t < pos {
                        assert(idx@[t] == old_idx[t]);
                    } else if t > pos {
                        assert(idx@[t] == old_idx[t - 1]);
                    }
                }
                assert forall|t: int, u: int| 0 <= t < u < idx.len() implies idx@[t] != idx@[u] by {
                    if t == pos {
                        assert(idx@[u] == old_idx[u - 1]);
                    } else if u == pos {
                        assert(idx@[t] == old_idx[t]);
                    } else {
                        let t1 = if t < pos { t } else { t - 1 };
                        let u1 = if u < pos { u } else { u - 1 };
                        assert(idx@[t] == old_idx[t1] && idx@[u] == old_idx[u1]);
                    }
                }
                assert forall|k: int|
                    0 <= k < i + 1 && #[trigger] placement(protos[k], groups, subgroups) == (g@, s@)
                        implies idx@.contains(k as usize) by {
                    if k == i {
                        assert(idx@[pos] == i);
                    } else {
                        let t = choose|t: int| 0 <= t < old_idx.len() && old_idx[t] == k as usize;
                        if t < pos {
                            assert(idx@[t] == k as usize);
                        } else {
                            assert(idx@[t + 1] == k as usize);
                        }
                    }
                }
            }
        }
        i = i + 1;
    }
    idx
}

/// The names of the prototypes at the given indices.
fn names_at<T: HasPrototypeBase>(vec: &Vec<T>, idx: &Vec<usize>) -> (r: Vec<String>)
    requires
        forall|t: int| 0 <= t < idx.len() ==> #[trigger] idx@[t] < vec.len(),
    ensures
        r.len() == idx.len(),
        forall|t: int|
            0 <= t < idx.len() ==> #[trigger] r@[t]@ == vec@[idx@[t] as int].prototype_base().name@,
{
    let mut r: Vec<String> = Vec::new();
    let mut t: usize = 0;
    while t < idx.len()
        invariant
            t <= idx.len(),
            r.len() == t,
            forall|u: int| 0 <= u < idx.len() ==> #[trigger] idx@[u] < vec.len(),
            forall|u: int|
                0 <= u < t ==> #[trigger] r@[u]@ == vec@[idx@[u] as int].prototype_base().name@,
        decreases idx.len() - t,
    {
        let b = vec[idx[t]].base();
        r.push(b.name.clone());
        t = t + 1;
    }
    r
}

proof fn lemma_group_entry_valid(
    ev: (Seq<char>, Seq<(Seq<char>, Seq<Seq<char>>)>),
    sk: Seq<Seq<char>>,
    gkv: Seq<Seq<char>>,
    skv: Seq<Seq<char>>,
    protos: Seq<PrototypeBase>,
    groups: Map<Seq<char>, PrototypeBase>,
    subgroups: Map<Seq<char>, ItemSubgroup>,
)
    requires
        sk.no_duplicates(),
        forall|x: Seq<char>| #[trigger]
            sk.contains(x) <==> exists|k: int|
                0 <= k < gkv.len() && gkv[k] == ev.0 && #[trigger] skv[k] == x,
        forall|a: int, b: int|
            0 <= a < b < sk.len() ==> opt_le(
                subgroup_order(sk[a], subgroups),
                subgroup_order(sk[b], subgroups),
            ),
        ev.1.len() == sk.len(),
        forall|a: int| 0 <= a < sk.len() ==> (#[trigger] ev.1[a]).0 == sk[a],
        forall|a: int|
            0 <= a < sk.len() ==> lists_members(
                (#[trigger] ev.1[a]).1,
                protos,
                groups,
                subgroups,
                ev.0,
                sk[a],
            ),
        gkv.len() == protos.len(),
        skv.len() == protos.len(),
        forall|k: int|
            0 <= k < protos.len() ==> (#[trigger] gkv[k], skv[k]) == placement(
                protos[k],
                groups,
                subgroups,
            ),
    ensures
        is_group_entry_of(ev, protos, groups, subgroups),
{
    let g = ev.0;
    let subs = ev.1;
    assert(first_parts(subs) =~= sk);
    let pl = placements(protos, groups, subgroups);
    assert forall|x: Seq<char>| #[trigger] sk.contains(x) <==> pl.contains((g, x)) by {
        if sk.contains(x) {
            let k = choose|k: int| 0 <= k < gkv.len() && gkv[k] == g && #[trigger] skv[k] == x;
            assert((gkv[k], skv[k]) == placement(protos[k], groups, subgroups));
            assert(pl[k] == (g, x));
        }
        if pl.contains((g, x)) {
            let k = choose|k: int| 0 <= k < pl.len() && pl[k] == (g, x);
            assert((gkv[k], skv[k]) == placement(protos[k], groups, subgroups));
            assert(gkv[k] == g && skv[k] == x);
        }
    }
    assert forall|a: int| 0 <= a < subs.len() implies lists_members(
        #[trigger] subs[a].1,
        protos,
        groups,
        subgroups,
        g,
        subs[a].0,
    ) by {
        assert(subs[a].0 == sk[a]);
    }
}

/// The subgroups of group `g` with their prototypes' names.
fn group_entry<T: HasPrototypeBase>(
    vec: &Vec<T>,
    okeys: &Vec<Vec<char>>,
    nkeys: &Vec<Vec<char>>,
    gks: &Vec<String>,
    sks: &Vec<String>,
    g: &String,
    subgroups: &Dict<ItemSubgroup>,
    Ghost(groups): Ghost<Map<Seq<char>, PrototypeBase>>,
) -> (e: (String, Vec<(String, Vec<String>)>))
    requires
        keys_match(okeys@, nkeys@, protos_of(vec@)),
        placed_at(gks@, sks@, protos_of(vec@), groups, subgroups@),
    ensures
        e.0@ == g@,
        is_group_entry_of(e.deep_view(), protos_of(vec@), groups, subgroups@),
{
    let ghost protos = protos_of(vec@);
    let skeys = distinct_sorted_subgroups(gks, sks, g, subgroups);
    let mut entry: Vec<(String, Vec<String>)> = Vec::new();
    let mut b: usize = 0;
    while b < skeys.len()
        invariant
            b <= skeys.len(),
            protos == protos_of(vec@),
            keys_match(okeys@, nkeys@, protos),
            placed_at(gks@, sks@, protos, groups, subgroups@),
            entry.len() == b,
            forall|a: int| 0 <= a < b ==> (#[trigger] entry@[a]).0@ == skeys@[a]@,
            forall|a: int|
                0 <= a < b ==> lists_members(
                    (#[trigger] entry@[a]).1.deep_view(),
                    protos,
                    groups,
                    subgroups@,
                    g@,
                    skeys@[a]@,
                ),
        decreases skeys.len() - b,
    {
        let idx = members(
            okeys,
            nkeys,
            gks,
            sks,
            g,
            &skeys[b],
            Ghost(protos),
            Ghost(groups),
            Ghost(subgroups@),
        );
        let names = names_at(vec, &idx);
        proof {
            let nv = names.deep_view();
            assert(nv.len() == idx@.len());
            assert forall|t: int| 0 <= t < idx@.len() implies {
                &&& #[trigger] idx@[t] < protos.len()
                &&& placement(protos[idx@[t] as int], groups, subgroups@) == (g@, skeys@[b as int]@)
                &&& nv[t] == protos[idx@[t] as int].name@
            } by {
                assert(nv[t] == names@[t]@);
            }
            assert(members_witness(idx@, nv, protos, groups, subgroups@, g@, skeys@[b as int]@));
            assert(lists_members(nv, protos, groups, subgroups@, g@, skeys@[b as int]@));
        }
        entry.push((skeys[b].clone(), names));
        b = b + 1;
    }
    let e = (g.clone(), entry);
    proof {
        let ev = e.deep_view();
        let sk = string_views(skeys@);
        assert(ev.0 == g@);
        assert(ev.1 == entry.deep_view());
        assert forall|a: int| 0 <= a < sk.len() implies (#[trigger] ev.1[a]).0 == sk[a]
            && ev.1[a].1 == entry@[a].1.deep_view() by {
            assert(ev.1[a] == entry@[a].deep_view());
        }
        assert forall|x: Seq<char>| #[trigger]
            sk.contains(x) <==> exists|k: int|
                0 <= k < string_views(gks@).len() && string_views(gks@)[k] == ev.0 && #[trigger] string_views(sks@)[k] == x by {
            if sk.contains(x) {
                let k = choose|k: int| 0 <= k < gks.len() && gks@[k]@ == g@ && #[trigger] sks@[k]@ == x;
                assert(string_views(gks@)[k] == ev.0 && string_views(sks@)[k] == x);
            }
            if exists|k: int|
                0 <= k < string_views(gks@).len() && string_views(gks@)[k] == ev.0 && #[trigger] string_views(sks@)[k] == x {
                let k = choose|k: int|
                    0 <= k < string_views(gks@).len() && string_views(gks@)[k] == ev.0 && #[trigger] string_views(sks@)[k] == x;
                assert(gks@[k]@ == g@ && sks@[k]@ == x);
            }
        }
        assert forall|k: int|
            0 <= k < protos.len() implies (#[trigger] string_views(gks@)[k], string_views(sks@)[k]) == placement(
                protos[k],
                groups,
                subgroups@,
            ) by {
            assert((gks@[k]@, sks@[k]@) == placement(protos[k], groups, subgroups@));
        }
        lemma_group_entry_valid(ev, sk, string_views(gks@), string_views(sks@), protos, groups, subgroups@);
    }
    e
}

proof fn lemma_order_info_valid(
    rv: Seq<(Seq<char>, Seq<(Seq<char>, Seq<Seq<char>>)>)>,
    gk: Seq<Seq<char>>,
    gkv: Seq<Seq<char>>,
    skv: Seq<Seq<char>>,
    protos: Seq<PrototypeBase>,
    groups: Map<Seq<char>, PrototypeBase>,
    subgroups: Map<Seq<char>, ItemSubgroup>,
)
    requires
        gk.no_duplicates(),
        forall|x: Seq<char>| #[trigger] gk.contains(x) <==> gkv.contains(x),
        forall|a: int, b: int|
            0 <= a < b < gk.len() ==> opt_le(group_order(gk[a], groups), group_order(gk[b], groups)),
        rv.len() == gk.len(),
        forall|i: int| 0 <= i < gk.len() ==> (#[trigger] rv[i]).0 == gk[i],
        forall|i: int| 0 <= i < gk.len() ==> is_group_entry_of(#[trigger] rv[i], protos, groups, subgroups),
        gkv.len() == protos.len(),
        skv.len() == protos.len(),
        forall|k: int|
            0 <= k < protos.len() ==> (#[trigger] gkv[k], skv[k]) == placement(
                protos[k],
                groups,
                subgroups,
            ),
    ensures
        is_order_info_of(rv, protos, groups, subgroups),
{
    assert(first_parts(rv) =~= gk);
    assert forall|k: int| 0 <= k < protos.len() implies #[trigger] first_parts(placements(protos, groups, subgroups))[k] == gkv[k] by {
        assert((gkv[k], skv[k]) == placement(protos[k], groups, subgroups));
    }
    assert(first_parts(placements(protos, groups, subgroups)) =~= gkv);
    assert forall|i: int, j: int| 0 <= i < j < rv.len() implies opt_le(
        group_order(rv[i].0, groups),
        group_order(rv[j].0, groups),
    ) by {
        assert(rv[i].0 == gk[i] && rv[j].0 == gk[j]);
    }
}

/// Orders prototypes for display: by group, then subgroup, then by their
/// own order string and name.
///
/// A prototype whose subgroup is unknown is listed under the group
/// `"other"` with an empty subgroup name; one whose subgroup's group is
/// unknown, under `"other"` with its subgroup's name. Groups and
/// subgroups that are not in the tables sort first. Groups or subgroups
/// with equal order strings may come in either order.
pub fn get_order_info<T: HasPrototypeBase>(
    vec: &Vec<T>,
    groups: &Dict<PrototypeBase>,
    subgroups: &Dict<ItemSubgroup>,
) -> (r: OrderInfo)
    ensures
        is_order_info_of(r.deep_view(), protos_of(vec@), groups@, subgroups@),
{
    let ghost protos = protos_of(vec@);
    let (gks, sks) = placements_of(vec, groups, subgroups);
    let mut okeys: Vec<Vec<char>> = Vec::new();
    let mut nkeys: Vec<Vec<char>> = Vec::new();
    let mut k: usize = 0;
    while k < vec.len()
        invariant
            k <= vec.len(),
            protos == protos_of(vec@),
            okeys.len() == k,
            nkeys.len() == k,
            forall|j: int| 0 <= j < k ==> #[trigger] okeys@[j]@ == protos[j].order@,
            forall|j: int| 0 <= j < k ==> #[trigger] nkeys@[j]@ == protos[j].name@,
        decreases vec.len() - k,
    {
        let b = vec[k].base();
        okeys.push(chars_of(b.order.as_str()));
        nkeys.push(chars_of(b.name.as_str()));
        k = k + 1;
    }
    proof {
        assert(placed_at(gks@, sks@, protos, groups@, subgroups@));
    }
    let gkeys = distinct_sorted_groups(&gks, groups);
    let mut r: OrderInfo = Vec::new();
    let mut a: usize = 0;
    while a < gkeys.len()
        invariant
            a <= gkeys.len(),
            protos == protos_of(vec@),
            keys_match(okeys@, nkeys@, protos),
            placed_at(gks@, sks@, protos, groups@, subgroups@),
            r.len() == a,
            forall|i: int| 0 <= i < a ==> (#[trigger] r@[i]).0@ == gkeys@[i]@,
            forall|i: int|
                0 <= i < a ==> is_group_entry_of(
                    (#[trigger] r@[i]).deep_view(),
                    protos,
                    groups@,
                    subgroups@,
                ),
        decreases gkeys.len() - a,
    {
        let e = group_entry(vec, &okeys, &nkeys, &gks, &sks, &gkeys[a], subgroups, Ghost(groups@));
        r.push(e);
        a = a + 1;
    }
    proof {
        let rv = r.deep_view();
        let gk = string_views(gkeys@);
        assert forall|i: int| 0 <= i < gk.len() implies (#[trigger] rv[i]).0 == gk[i]
            && is_group_entry_of(rv[i], protos, groups@, subgroups@) by {
            assert(rv[i] == r@[i].deep_view());
            assert(r@[i].0@ == gkeys@[i]@);
        }
        assert forall|k: int|
            0 <= k < protos.len() implies (#[trigger] string_views(gks@)[k], string_views(sks@)[k]) == placement(
                protos[k],
                groups@,
                subgroups@,
            ) by {
            assert((gks@[k]@, sks@[k]@) == placement(protos[k], groups@, subgroups@));
        }
        lemma_order_info_valid(rv, gk, string_views(gks@), string_views(sks@), protos, groups@, subgroups@);
    }
    r
}

/// For each listed name, its group, subgroup and position in an [`OrderInfo`].
pub type ReverseOrderInfo = StringHashMap<(usize, usize, usize)>;

pub type OrderInfoView = Seq<(Seq<char>, Seq<(Seq<char>, Seq<Seq<char>>)>)>;

/// Whether `(g, s, i)` is a position in `info`.
pub open spec fn valid_pos(info: OrderInfoView, g: int, s: int, i: int) -> bool {
    &&& 0 <= g < info.len()
    &&& 0 <= s < info[g].1.len()
    &&& 0 <= i < info[g].1[s].1.len()
}

/// The name at position `(g, s, i)`.
pub open spec fn name_at(info: OrderInfoView, g: int, s: int, i: int) -> Seq<char> {
    info[g].1[s].1[i]
}

/// Positions compared in the order in which the lists are walked.
pub open spec fn pos_lt(p: (int, int, int), q: (int, int, int)) -> bool {
    p.0 < q.0 || (p.0 == q.0 && (p.1 < q.1 || (p.1 == q.1 && p.2 < q.2)))
}

pub open spec fn pos_of(t: (usize, usize, usize)) -> (int, int, int) {
    (t.0 as int, t.1 as int, t.2 as int)
}

/// `m` maps every name listed in `info` before position `cur` to the last
/// such position that holds it.
pub open spec fn reverse_upto(
    m: Map<Seq<char>, (usize, usize, usize)>,
    info: OrderInfoView,
    cur: (int, int, int),
) -> bool {
    &&& forall|n: Seq<char>| #[trigger]
        m.contains_key(n) ==> {
            let p = pos_of(m[n]);
            &&& valid_pos(info, p.0, p.1, p.2)
            &&& pos_lt(p, cur)
            &&& name_at(info, p.0, p.1, p.2) == n
            &&& forall|g: int, s: int, i: int|
                valid_pos(info, g, s, i) && pos_lt(p, (g, s, i)) && pos_lt((g, s, i), cur)
                    ==> #[trigger] name_at(info, g, s, i) != n
        }
    &&& forall|g: int, s: int, i: int|
        valid_pos(info, g, s, i) && pos_lt((g, s, i), cur) ==> m.contains_key(
            #[trigger] name_at(info, g, s, i),
        )
}

/// `m` maps every name listed in `info` to the last position that holds it,
/// and holds no other name.
pub open spec fn is_reverse_of(m: Map<Seq<char>, (usize, usize, usize)>, info: OrderInfoView) -> bool {
    reverse_upto(m, info, (info.len() as int, 0, 0))
}

/// Maps each listed name to its group index, subgroup index and index
/// within the subgroup. Where a name is listed more than once, the last
/// place wins.
pub fn get_reverse_order_info(order_info: &OrderInfo) -> (r: ReverseOrderInfo)
    ensures
        is_reverse_of(r@, order_info.deep_view()),
{
    let ghost info = order_info.deep_view();
    let mut m: ReverseOrderInfo = StringHashMap::new();
    let mut g: usize = 0;
    while g < order_info.len()
        invariant
            g <= order_info.len(),
            info == order_info.deep_view(),
            reverse_upto(m@, info, (g as int, 0, 0)),
        decreases order_info.len() - g,
    {
        let subs = &order_info[g].1;
        proof {
            assert(info[g as int] == order_info@[g as int].deep_view());
            assert(info[g as int].1 == subs.deep_view());
        }
        let mut s: usize = 0;
        while s < subs.len()
            invariant
                g < order_info.len(),
                s <= subs.len(),
                info == order_info.deep_view(),
                subs == order_info@[g as int].1,
                info[g as int].1 == subs.deep_view(),
                reverse_upto(m@, info, (g as int, s as int, 0)),
            decreases subs.len() - s,
        {
            let names = &subs[s].1;
            proof {
                assert(info[g as int].1[s as int] == subs@[s as int].deep_view());
                assert(info[g as int].1[s as int].1 == names.deep_view());
            }
            let mut i: usize = 0;
            while i < names.len()
                invariant
                    g < order_info.len(),
                    s < subs.len(),
                    i <= names.len(),
                    info == order_info.deep_view(),
                    info[g as int].1.len() == subs.len(),
                    info[g as int].1[s as int].1 == names.deep_view(),
                    reverse_upto(m@, info, (g as int, s as int, i as int)),
                decreases names.len() - i,
            {
                let ghost old_m = m@;
                let ghost cur = (g as int, s as int, i as int);
                proof {
                    assert(name_at(info, g as int, s as int, i as int) == names@[i as int]@);
                }
                m.insert(names[i].clone(), (g, s, i));
                proof {
                    let n0 = names@[i as int]@;
                    let next = (g as int, s as int, i + 1);
                    assert forall|n: Seq<char>| #[trigger] m@.contains_key(n) implies {
                        let p = pos_of(m@[n]);
                        &&& valid_pos(info, p.0, p.1, p.2)
                        &&& pos_lt(p, next)
                        &&& name_at(info, p.0, p.1, p.2) == n
                        &&& forall|g2: int, s2: int, i2: int|
                            valid_pos(info, g2, s2, i2) && pos_lt(p, (g2, s2, i2)) && pos_lt(
                                (g2, s2, i2),
                                next,
                            ) ==> #[trigger] name_at(info, g2, s2, i2) != n
                    } by {
                        if n != n0 {
                            assert(old_m.contains_key(n));
                            let p = pos_of(m@[n]);
                            assert forall|g2: int, s2: int, i2: int|
                                valid_pos(info, g2, s2, i2) && pos_lt(p, (g2, s2, i2)) && pos_lt(
                                    (g2, s2, i2),
                                    next,
                                ) implies #[trigger] name_at(info, g2, s2, i2) != n by {
                                if !pos_lt((g2, s2, i2), cur) {
                                    assert(g2 == g && s2 == s && i2 == i);
                                }
                            }
                        }
                    }
                    assert forall|g2: int, s2: int, i2: int|
                        valid_pos(info, g2, s2, i2) && pos_lt((g2, s2, i2), next) implies m@.contains_key(
                            #[trigger] name_at(info, g2, s2, i2),
                        ) by {
                        if pos_lt((g2, s2, i2), cur) {
                            assert(old_m.contains_key(name_at(info, g2, s2, i2)));
                        } else {
                            assert(g2 == g && s2 == s && i2 == i);
                        }
                    }
                }
                i = i + 1;
            }
            proof {
                let cur = (g as int, s as int, i as int);
                let next = (g as int, s + 1, 0int);
                assert forall|g2: int, s2: int, i2: int| valid_pos(info, g2, s2, i2) implies (pos_lt(
                    (g2, s2, i2),
                    cur,
                ) <==> pos_lt((g2, s2, i2), next)) by {
                }
            }
            s = s + 1;
        }
        proof {
            let cur = (g as int, s as int, 0int);
            let next = (g + 1, 0int, 0int);
            assert forall|g2: int, s2: int, i2: int| valid_pos(info, g2, s2, i2) implies (pos_lt(
                (g2, s2, i2),
                cur,
            ) <==> pos_lt((g2, s2, i2), next)) by {
            }
        }
        g = g + 1;
    }
    m
}

/// `p`'s name is listed somewhere, in `p`'s group and subgroup.
pub open spec fn lists_prototype(
    info: OrderInfoView,
    p: PrototypeBase,
    groups: Map<Seq<char>, PrototypeBase>,
    subgroups: Map<Seq<char>, ItemSubgroup>,
) -> bool {
    exists|g: int, s: int, i: int|
        #![trigger name_at(info, g, s, i)]
        valid_pos(info, g, s, i) && name_at(info, g, s, i) == p.name@ && (info[g].0, info[g].1[s].0)
            == placement(p, groups, subgroups)
}

/// No name is listed at two places.
pub open spec fn names_distinct(info: OrderInfoView) -> bool {
    forall|g1: int, s1: int, i1: int, g2: int, s2: int, i2: int|
        valid_pos(info, g1, s1, i1) && valid_pos(info, g2, s2, i2) && #[trigger] name_at(
            info,
            g1,
            s1,
            i1,
        ) == #[trigger] name_at(info, g2, s2, i2) ==> g1 == g2 && s1 == s2 && i1 == i2
}

pub open spec fn proto_names_distinct(protos: Seq<PrototypeBase>) -> bool {
    forall|k: int, l: int|
        0 <= k < protos.len() && 0 <= l < protos.len() && k != l ==> #[trigger] protos[k].name@
            != #[trigger] protos[l].name@
}

proof fn lemma_member_index(
    info: OrderInfoView,
    protos: Seq<PrototypeBase>,
    groups: Map<Seq<char>, PrototypeBase>,
    subgroups: Map<Seq<char>, ItemSubgroup>,
    g: int,
    s: int,
    i: int,
) -> (k: int)
    requires
        is_order_info_of(info, protos, groups, subgroups),
        valid_pos(info, g, s, i),
    ensures
        0 <= k < protos.len(),
        protos[k].name@ == name_at(info, g, s, i),
        placement(protos[k], groups, subgroups) == (info[g].0, info[g].1[s].0),
{
    assert(is_group_entry_of(info[g], protos, groups, subgroups));
    let subs = info[g].1;
    assert(lists_members(subs[s].1, protos, groups, subgroups, info[g].0, subs[s].0));
    let idx = choose|idx: Seq<usize>| members_witness(idx, subs[s].1, protos, groups, subgroups, info[g].0, subs[s].0);
    let k = idx[i] as int;
    assert(idx[i] < protos.len());
    k
}

/// Every prototype is listed exactly once: when no two prototypes share a
/// name, the order info lists no name twice, and it lists the name of
/// every prototype, in the group and subgroup where the prototype belongs.
pub proof fn lemma_order_info_lists_each_once(
    info: OrderInfoView,
    protos: Seq<PrototypeBase>,
    groups: Map<Seq<char>, PrototypeBase>,
    subgroups: Map<Seq<char>, ItemSubgroup>,
)
    requires
        is_order_info_of(info, protos, groups, subgroups),
        proto_names_distinct(protos),
        protos.len() <= usize::MAX,
    ensures
        names_distinct(info),
        forall|k: int| 0 <= k < protos.len() ==> #[trigger] lists_prototype(info, protos[k], groups, subgroups),
{
    assert forall|g1: int, s1: int, i1: int, g2: int, s2: int, i2: int|
        valid_pos(info, g1, s1, i1) && valid_pos(info, g2, s2, i2) && #[trigger] name_at(
            info,
            g1,
            s1,
            i1,
        ) == #[trigger] name_at(info, g2, s2, i2) implies g1 == g2 && s1 == s2 && i1 == i2 by {
        let k1 = lemma_member_index(info, protos, groups, subgroups, g1, s1, i1);
        let k2 = lemma_member_index(info, protos, groups, subgroups, g2, s2, i2);
        assert(k1 == k2);
        let gk = first_parts(info);
        assert(gk[g1] == info[g1].0 && gk[g2] == info[g2].0);
        assert(g1 == g2);
        let subs = info[g1].1;
        assert(is_group_entry_of(info[g1], protos, groups, subgroups));
        let sk = first_parts(subs);
        assert(sk[s1] == subs[s1].0 && sk[s2] == subs[s2].0);
        assert(s1 == s2);
        assert(lists_members(subs[s1].1, protos, groups, subgroups, info[g1].0, subs[s1].0));
        let idx = choose|idx: Seq<usize>| members_witness(idx, subs[s1].1, protos, groups, subgroups, info[g1].0, subs[s1].0);
        assert(protos[idx[i1] as int].name@ == protos[idx[i2] as int].name@);
        if i1 != i2 {
            assert(idx[i1] != idx[i2]);
        }
    }
    assert forall|k: int| 0 <= k < protos.len() implies #[trigger] lists_prototype(info, protos[k], groups, subgroups) by {
        let pl = placements(protos, groups, subgroups);
        let (gn, sn) = placement(protos[k], groups, subgroups);
        assert(pl[k] == (gn, sn));
        assert(first_parts(pl)[k] == gn);
        assert(first_parts(pl).contains(gn));
        assert(first_parts(info).contains(gn));
        let g = choose|g: int| 0 <= g < first_parts(info).len() && first_parts(info)[g] == gn;
        assert(info[g].0 == gn);
        assert(is_group_entry_of(info[g], protos, groups, subgroups));
        let subs = info[g].1;
        assert(pl.contains((gn, sn)));
        assert(first_parts(subs).contains(sn));
        let s = choose|s: int| 0 <= s < first_parts(subs).len() && first_parts(subs)[s] == sn;
        assert(subs[s].0 == sn);
        assert(lists_members(subs[s].1, protos, groups, subgroups, gn, sn));
        let idx = choose|idx: Seq<usize>| members_witness(idx, subs[s].1, protos, groups, subgroups, gn, sn);
        assert(idx.contains(k as usize));
        let i = choose|i: int| 0 <= i < idx.len() && idx[i] == k as usize;
        assert(idx[i] < protos.len());
        assert(subs[s].1[i] == protos[idx[i] as int].name@);
        assert(name_at(info, g, s, i) == subs[s].1[i]);
        assert(name_at(info, g, s, i) == protos[k].name@);
        assert(valid_pos(info, g, s, i));
        assert((info[g].0, info[g].1[s].0) == placement(protos[k], groups, subgroups));
    }
}

/// Where no name is listed twice, the reverse table gives back, for every
/// place, the name listed there at exactly that place.
pub proof fn lemma_reverse_finds_position(
    m: Map<Seq<char>, (usize, usize, usize)>,
    info: OrderInfoView,
    g: int,
    s: int,
    i: int,
)
    requires
        is_reverse_of(m, info),
        names_distinct(info),
        valid_pos(info, g, s, i),
    ensures
        m.contains_key(name_at(info, g, s, i)),
        pos_of(m[name_at(info, g, s, i)]) == (g, s, i),
{
    let n = name_at(info, g, s, i);
    assert(pos_lt((g, s, i), (info.len() as int, 0, 0)));
    assert(m.contains_key(n));
    let p = pos_of(m[n]);
    assert(name_at(info, p.0, p.1, p.2) == n);
}

} // verus!
