use vstd::prelude::*;
use vstd::multiset::Multiset;

use crate::common::{Dict, IdWithQuality};
use crate::data::{DataContext, GenericItem};
use crate::order::ReverseOrderInfo;
use crate::ordering::{entity_key, fluid_key, item_key};
use crate::text::{
    chars_of, compare_chars, lemma_seq_lt_asymmetric, lemma_seq_lt_irreflexive, lemma_seq_lt_total,
    lemma_seq_lt_transitive, seq_lt,
};

verus! {

/// A sort key: kind (with quality), display position, and a name.
pub type SortKey = (usize, (usize, usize, usize), Seq<char>);

/// Where `name` stands in the display order of `category`, or the first
/// place when it is not listed.
pub open spec fn entry_position(
    orders: Map<Seq<char>, ReverseOrderInfo>,
    category: Seq<char>,
    name: Seq<char>,
) -> (usize, usize, usize) {
    let m = orders[category]@;
    if m.contains_key(name) {
        m[name]
    } else {
        (0, 0, 0)
    }
}

pub open spec fn opt_name(o: Option<String>) -> Seq<char> {
    match o {
        Some(s) => s@,
        None => Seq::empty(),
    }
}

/// The key by which generic items are sorted: items by quality, then
/// fluids, entities, heat, electricity, fluid heat, fluid fuel, item
/// fuel, rocket payloads, pollution and custom items; within a kind, by
/// display order and then by name.
pub open spec fn sort_key(item: GenericItem, orders: Map<Seq<char>, ReverseOrderInfo>) -> SortKey {
    match item {
        GenericItem::Item(IdWithQuality(name, quality)) => (
            quality as usize,
            entry_position(orders, item_key(), name@),
            Seq::empty(),
        ),
        GenericItem::Fluid { name, .. } => (
            0x100,
            entry_position(orders, fluid_key(), name@),
            Seq::empty(),
        ),
        GenericItem::Entity(IdWithQuality(name, quality)) => (
            (0x200 + quality) as usize,
            entry_position(orders, entity_key(), name@),
            Seq::empty(),
        ),
        GenericItem::Heat => (0x300, (0, 0, 0), Seq::empty()),
        GenericItem::Electricity => (0x400, (0, 0, 0), Seq::empty()),
        GenericItem::FluidHeat { filter } => (0x500, (0, 0, 0), opt_name(filter)),
        GenericItem::FluidFuel { filter } => (0x600, (0, 0, 0), opt_name(filter)),
        GenericItem::ItemFuel { category } => (0x700, (0, 0, 0), category@),
        GenericItem::RocketPayloadWeight => (0x800, (0, 0, 0), Seq::empty()),
        GenericItem::RocketPayloadStack => (0x900, (0, 0, 0), Seq::empty()),
        GenericItem::Pollution { name } => (0xa00, (0, 0, 0), name@),
        GenericItem::Custom { name } => (0xb00, (0, 0, 0), name@),
    }
}

/// The display-order table that the key of `item` reads is there.
pub open spec fn key_defined(item: GenericItem, orders: Map<Seq<char>, ReverseOrderInfo>) -> bool {
    match item {
        GenericItem::Item(_) => orders.contains_key(item_key()),
        GenericItem::Fluid { .. } => orders.contains_key(fluid_key()),
        GenericItem::Entity(_) => orders.contains_key(entity_key()),
        _ => true,
    }
}

pub open spec fn triple_lt(a: (usize, usize, usize), b: (usize, usize, usize)) -> bool {
    a.0 < b.0 || (a.0 == b.0 && (a.1 < b.1 || (a.1 == b.1 && a.2 < b.2)))
}

/// The order of tuples: by kind, then position, then name.
pub open spec fn key_lt(a: SortKey, b: SortKey) -> bool {
    a.0 < b.0 || (a.0 == b.0 && (triple_lt(a.1, b.1) || (a.1 == b.1 && seq_lt(a.2, b.2))))
}

pub open spec fn key_le(a: SortKey, b: SortKey) -> bool {
    key_lt(a, b) || a == b
}

pub proof fn lemma_key_lt_transitive(a: SortKey, b: SortKey, c: SortKey)
    requires
        key_lt(a, b),
        key_lt(b, c),
    ensures
        key_lt(a, c),
{
    if a.0 == b.0 && b.0 == c.0 && a.1 == b.1 && b.1 == c.1 {
        lemma_seq_lt_transitive(a.2, b.2, c.2);
    }
}

pub proof fn lemma_key_total(a: SortKey, b: SortKey)
    ensures
        key_lt(a, b) || key_lt(b, a) || a == b,
{
    lemma_seq_lt_total(a.2, b.2);
}

pub proof fn lemma_key_lt_irreflexive(a: SortKey)
    ensures
        !key_lt(a, a),
{
    lemma_seq_lt_irreflexive(a.2);
}

pub open spec fn key_view(k: (usize, (usize, usize, usize), Vec<char>)) -> SortKey {
    (k.0, k.1, k.2@)
}

fn entry_position_exec(
    orders: &Dict<ReverseOrderInfo>,
    category: &str,
    name: &String,
) -> (r: (usize, usize, usize))
    requires
        orders@.contains_key(category@),
    ensures
        r == entry_position(orders@, category@, name@),
{
    let m = orders.get(category).unwrap();
    match m.get(name.as_str()) {
        Some(p) => *p,
        None => (0, 0, 0),
    }
}

fn opt_chars(o: &Option<String>) -> (r: Vec<char>)
    ensures
        r@ == opt_name(*o),
{
    match o {
        Some(s) => chars_of(s.as_str()),
        None => Vec::new(),
    }
}

/// The key by which `item` is sorted.
fn get_generic_item_sort_key(item: &GenericItem, ctx: &DataContext) -> (r: (
    usize,
    (usize, usize, usize),
    Vec<char>,
))
    requires
        key_defined(*item, ctx.order_of_entries@),
    ensures
        key_view(r) == sort_key(*item, ctx.order_of_entries@),
{
    let orders = &ctx.order_of_entries;
    proof {
        reveal_strlit("item");
        reveal_strlit("fluid");
        reveal_strlit("entity");
        assert("item"@ =~= item_key());
        assert("fluid"@ =~= fluid_key());
        assert("entity"@ =~= entity_key());
    }
    match item {
        GenericItem::Item(IdWithQuality(name, quality)) => (
            *quality as usize,
            entry_position_exec(orders, "item", name),
            Vec::new(),
        ),
        GenericItem::Fluid { name, .. } => (0x100, entry_position_exec(orders, "fluid", name), Vec::new()),
        GenericItem::Entity(IdWithQuality(name, quality)) => (
            0x200usize + *quality as usize,
            entry_position_exec(orders, "entity", name),
            Vec::new(),
        ),
        GenericItem::Heat => (0x300, (0, 0, 0), Vec::new()),
        GenericItem::Electricity => (0x400, (0, 0, 0), Vec::new()),
        GenericItem::FluidHeat { filter } => (0x500, (0, 0, 0), opt_chars(filter)),
        GenericItem::FluidFuel { filter } => (0x600, (0, 0, 0), opt_chars(filter)),
        GenericItem::ItemFuel { category } => (0x700, (0, 0, 0), chars_of(category.as_str())),
        GenericItem::RocketPayloadWeight => (0x800, (0, 0, 0), Vec::new()),
        GenericItem::RocketPayloadStack => (0x900, (0, 0, 0), Vec::new()),
        GenericItem::Pollution { name } => (0xa00, (0, 0, 0), chars_of(name.as_str())),
        GenericItem::Custom { name } => (0xb00, (0, 0, 0), chars_of(name.as_str())),
    }
}

fn key_less(
    a: &(usize, (usize, usize, usize), Vec<char>),
    b: &(usize, (usize, usize, usize), Vec<char>),
) -> (r: bool)
    ensures
        r == key_lt(key_view(*a), key_view(*b)),
{
    if a.0 != b.0 {
        return a.0 < b.0;
    }
    let (a0, a1, a2) = a.1;
    let (b0, b1, b2) = b.1;
    if a0 != b0 {
        return a0 < b0;
    }
    if a1 != b1 {
        return a1 < b1;
    }
    if a2 != b2 {
        return a2 < b2;
    }
    compare_chars(&a.2, &b.2) == -1
}

/// The items of `s` whose key is `k`, in their order.
pub open spec fn with_key<T>(s: Seq<T>, f: spec_fn(T) -> SortKey, k: SortKey) -> Seq<T> {
    s.filter(key_is(f, k))
}

/// Whether an item's key is `k`.
pub open spec fn key_is<T>(f: spec_fn(T) -> SortKey, k: SortKey) -> spec_fn(T) -> bool {
    |t: T| f(t) == k
}

/// The key of a generic item under the display orders `orders`.
pub open spec fn item_key_fn(orders: Map<Seq<char>, ReverseOrderInfo>) -> spec_fn(GenericItem) -> SortKey {
    |g: GenericItem| sort_key(g, orders)
}

/// The key of a referenced generic item under the display orders `orders`.
pub open spec fn ref_key_fn<'a>(orders: Map<Seq<char>, ReverseOrderInfo>) -> spec_fn(&'a GenericItem) -> SortKey {
    |g: &'a GenericItem| sort_key(*g, orders)
}

proof fn lemma_with_key_insert<T>(s: Seq<T>, pos: int, x: T, f: spec_fn(T) -> SortKey, k: SortKey)
    requires
        0 <= pos <= s.len(),
        forall|t: int| pos <= t < s.len() ==> f(#[trigger] s[t]) != f(x),
    ensures
        with_key(s.insert(pos, x), f, k) == if f(x) == k {
            with_key(s, f, k).push(x)
        } else {
            with_key(s, f, k)
        },
{
    let p = key_is(f, k);
    let a = s.take(pos);
    let b = s.skip(pos);
    assert(s.insert(pos, x) =~= (a + seq![x]) + b);
    assert(s =~= a + b);
    Seq::filter_distributes_over_add(a + seq![x], b, p);
    Seq::filter_distributes_over_add(a, seq![x], p);
    Seq::filter_distributes_over_add(a, b, p);
    Seq::<T>::empty().lemma_filter_prepend(x, p);
    assert(seq![x] + Seq::<T>::empty() =~= seq![x]);
    reveal(Seq::filter);
    assert(Seq::<T>::empty().filter(p) =~= Seq::<T>::empty());
    if f(x) == k {
        assert forall|t: int| 0 <= t < b.len() implies !p(#[trigger] b[t]) by {
            assert(b[t] == s[pos + t]);
        }
        b.lemma_all_neg_filter_empty(p);
        assert(b.filter(p) =~= Seq::<T>::empty());
        assert(with_key(s.insert(pos, x), f, k) =~= with_key(s, f, k).push(x));
    } else {
        assert(with_key(s.insert(pos, x), f, k) =~= with_key(s, f, k));
    }
}

pub open spec fn sorted_by_key<T>(s: Seq<T>, f: spec_fn(T) -> SortKey) -> bool {
    forall|i: int, j: int| 0 <= i < j < s.len() ==> key_le(f(s[i]), f(s[j]))
}

/// Sorts `items` by the keys given beside them, keeping the order of
/// items with equal keys.
fn sort_by_keys<T>(
    items: &mut Vec<T>,
    keys: Vec<(usize, (usize, usize, usize), Vec<char>)>,
    Ghost(f): Ghost<spec_fn(T) -> SortKey>,
)
    requires
        old(items).len() == keys.len(),
        forall|i: int| 0 <= i < keys.len() ==> key_view(#[trigger] keys@[i]) == f(old(items)@[i]),
    ensures
        final(items)@.to_multiset() == old(items)@.to_multiset(),
        sorted_by_key(final(items)@, f),
        forall|k: SortKey| #[trigger] with_key(final(items)@, f, k) == with_key(old(items)@, f, k),
{
    broadcast use vstd::seq_lib::group_to_multiset_ensures;

    let ghost orig = items@.to_multiset();
    let ghost orig_seq = items@;
    let mut keys = keys;
    let mut out: Vec<T> = Vec::new();
    let mut outk: Vec<(usize, (usize, usize, usize), Vec<char>)> = Vec::new();
    proof {
        assert(out@.to_multiset() =~= Multiset::<T>::empty());
        assert(out@.to_multiset().add(items@.to_multiset()) =~= orig);
        reveal(Seq::filter);
        assert forall|k: SortKey| #[trigger] with_key(out@, f, k) + with_key(items@, f, k) == with_key(orig_seq, f, k) by {
            assert(with_key(out@, f, k) =~= Seq::<T>::empty());
            assert(with_key(out@, f, k) + with_key(items@, f, k) =~= with_key(items@, f, k));
        }
    }
    while items.len() > 0
        invariant
            items.len() == keys.len(),
            forall|i: int| 0 <= i < keys.len() ==> key_view(#[trigger] keys@[i]) == f(items@[i]),
            out.len() == outk.len(),
            forall|i: int| 0 <= i < outk.len() ==> key_view(#[trigger] outk@[i]) == f(out@[i]),
            sorted_by_key(out@, f),
            out@.to_multiset().add(items@.to_multiset()) == orig,
            forall|k: SortKey| #[trigger] with_key(out@, f, k) + with_key(items@, f, k) == with_key(orig_seq, f, k),
        decreases items.len(),
    {
        let ghost old_items = items@;
        let ghost old_keys = keys@;
        let x = items.remove(0);
        let kx = keys.remove(0);
        proof {
            assert(key_view(old_keys[0]) == f(old_items[0]));
            assert forall|i: int| 0 <= i < keys.len() implies key_view(#[trigger] keys@[i]) == f(items@[i]) by {
                assert(keys@[i] == old_keys[i + 1] && items@[i] == old_items[i + 1]);
            }
        }
        let mut pos: usize = 0;
        while pos < outk.len() && !key_less(&kx, &outk[pos])
            invariant
                pos <= outk.len(),
                out.len() == outk.len(),
                forall|i: int| 0 <= i < outk.len() ==> key_view(#[trigger] outk@[i]) == f(out@[i]),
                sorted_by_key(out@, f),
                key_view(kx) == f(x),
                forall|t: int| 0 <= t < pos ==> key_le(f(#[trigger] out@[t]), f(x)),
            decreases outk.len() - pos,
        {
            proof {
                lemma_key_total(key_view(kx), key_view(outk@[pos as int]));
            }
            pos = pos + 1;
        }
        let ghost old_out = out@;
        let ghost old_outk = outk@;
        proof {
            if pos < out.len() {
                assert forall|t: int| pos <= t < out.len() implies key_le(f(x), f(#[trigger] out@[t])) by {
                    assert(key_lt(f(x), f(out@[pos as int])));
                    if t > pos {
                        assert(key_le(f(out@[pos as int]), f(out@[t])));
                        if key_lt(f(out@[pos as int]), f(out@[t])) {
                            lemma_key_lt_transitive(f(x), f(out@[pos as int]), f(out@[t]));
                        }
                    }
                }
            }
        }
        proof {
            assert forall|t: int| pos <= t < old_out.len() implies f(#[trigger] old_out[t]) != f(x) by {
                assert(key_lt(f(x), f(old_out[pos as int])));
                if t > pos {
                    assert(key_le(f(old_out[pos as int]), f(old_out[t])));
                    if key_lt(f(old_out[pos as int]), f(old_out[t])) {
                        lemma_key_lt_transitive(f(x), f(old_out[pos as int]), f(old_out[t]));
                    }
                }
                lemma_key_lt_irreflexive(f(x));
            }
        }
        out.insert(pos, x);
        outk.insert(pos, kx);
        proof {
            assert forall|k: SortKey| #[trigger] with_key(out@, f, k) + with_key(items@, f, k) == with_key(orig_seq, f, k) by {
                lemma_with_key_insert(old_out, pos as int, x, f, k);
                let p = key_is(f, k);
                assert(old_items =~= seq![x] + items@);
                items@.lemma_filter_prepend(x, p);
                if f(x) == k {
                    assert(with_key(old_items, f, k) =~= seq![x] + with_key(items@, f, k));
                    assert(with_key(out@, f, k) + with_key(items@, f, k) =~= with_key(old_out, f, k) + with_key(old_items, f, k));
                } else {
                    assert(with_key(old_items, f, k) =~= Seq::<T>::empty() + with_key(items@, f, k));
                    assert(with_key(old_items, f, k) =~= with_key(items@, f, k));
                }
            }
            let nv = out@;
            assert forall|i: int| 0 <= i < outk.len() implies key_view(#[trigger] outk@[i]) == f(out@[i]) by {
                if i < pos {
                    assert(outk@[i] == old_outk[i] && out@[i] == old_out[i]);
                } else if i > pos {
                    assert(outk@[i] == old_outk[i - 1] && out@[i] == old_out[i - 1]);
                }
            }
            assert forall|i: int, j: int| 0 <= i < j < nv.len() implies key_le(f(nv[i]), f(nv[j])) by {
                if i < pos && j < pos {
                    assert(nv[i] == old_out[i] && nv[j] == old_out[j]);
                } else if i < pos && j == pos {
                    assert(nv[i] == old_out[i]);
                } else if i < pos {
                    assert(nv[i] == old_out[i] && nv[j] == old_out[j - 1]);
                    assert(key_le(f(old_out[i]), f(x)));
                    assert(key_le(f(x), f(old_out[j - 1])));
                    if key_lt(f(old_out[i]), f(x)) && key_lt(f(x), f(old_out[j - 1])) {
                        lemma_key_lt_transitive(f(old_out[i]), f(x), f(old_out[j - 1]));
                    }
                } else if i == pos {
                    assert(nv[j] == old_out[j - 1]);
                } else {
                    assert(nv[i] == old_out[i - 1] && nv[j] == old_out[j - 1]);
                }
            }
            assert(old_items =~= old_items.remove(0).insert(0, x));
            assert(old_items.remove(0) == items@);
            assert(out@ == old_out.insert(pos as int, x));
            vstd::seq_lib::to_multiset_insert(old_out, pos as int, x);
            assert(out@.to_multiset() == old_out.to_multiset().insert(x));
            vstd::seq_lib::to_multiset_insert(items@, 0, x);
            assert(items@.insert(0, x) =~= old_items);
            assert(old_items.to_multiset() == items@.to_multiset().insert(x));
            assert(out@.to_multiset().add(items@.to_multiset()) =~= orig);
        }
    }
    proof {
        assert(items@.to_multiset() =~= Multiset::<T>::empty());
        assert(out@.to_multiset() =~= orig);
        reveal(Seq::filter);
        assert forall|k: SortKey| #[trigger] with_key(out@, f, k) == with_key(orig_seq, f, k) by {
            assert(with_key(items@, f, k) =~= Seq::<T>::empty());
            assert(with_key(out@, f, k) + with_key(items@, f, k) =~= with_key(out@, f, k));
        }
    }
    let ghost sorted_out = out@;
    items.append(&mut out);
    proof {
        assert(items@ =~= sorted_out);
    }
}

pub open spec fn keys_defined(items: Seq<GenericItem>, orders: Map<Seq<char>, ReverseOrderInfo>) -> bool {
    forall|i: int| 0 <= i < items.len() ==> key_defined(#[trigger] items[i], orders)
}

/// Sorts generic items in place: items by quality, then fluids, entities,
/// heat, electricity, fluid heat, fluid fuel, item fuel, rocket payloads,
/// pollution and custom items; within a kind, by display order and then
/// by name. Items with equal keys keep their order. The display-order
/// table of each kind present must be there.
pub fn sort_generic_items_owned(keys: &mut Vec<GenericItem>, factorio: &DataContext)
    requires
        keys_defined(old(keys)@, factorio.order_of_entries@),
    ensures
        final(keys)@.to_multiset() == old(keys)@.to_multiset(),
        sorted_for_display(final(keys)@, factorio.order_of_entries@),
        forall|i: int, j: int|
            0 <= i < j < final(keys).len() ==> key_le(
                sort_key(final(keys)@[i], factorio.order_of_entries@),
                sort_key(final(keys)@[j], factorio.order_of_entries@),
            ),
        forall|k: SortKey| #[trigger]
            with_key(final(keys)@, item_key_fn(factorio.order_of_entries@), k) == with_key(
                old(keys)@,
                item_key_fn(factorio.order_of_entries@),
                k,
            ),
{
    let ghost f = item_key_fn(factorio.order_of_entries@);
    let mut ks: Vec<(usize, (usize, usize, usize), Vec<char>)> = Vec::new();
    let mut i: usize = 0;
    while i < keys.len()
        invariant
            i <= keys.len(),
            keys@ == old(keys)@,
            keys_defined(keys@, factorio.order_of_entries@),
            ks.len() == i,
            f == item_key_fn(factorio.order_of_entries@),
            forall|j: int| 0 <= j < i ==> key_view(#[trigger] ks@[j]) == f(keys@[j]),
        decreases keys.len() - i,
    {
        ks.push(get_generic_item_sort_key(&keys[i], factorio));
        i = i + 1;
    }
    sort_by_keys(keys, ks, Ghost(f));
}

/// Sorts references to generic items in the order of
/// [`sort_generic_items_owned`].
pub fn sort_generic_items(keys: &mut Vec<&GenericItem>, factorio: &DataContext)
    requires
        forall|i: int| 0 <= i < old(keys).len() ==> key_defined(*#[trigger] old(keys)@[i], factorio.order_of_entries@),
    ensures
        final(keys)@.to_multiset() == old(keys)@.to_multiset(),
        forall|i: int, j: int|
            0 <= i < j < final(keys).len() ==> key_le(
                sort_key(*final(keys)@[i], factorio.order_of_entries@),
                sort_key(*final(keys)@[j], factorio.order_of_entries@),
            ),
        forall|k: SortKey| #[trigger]
            with_key(final(keys)@, ref_key_fn(factorio.order_of_entries@), k) == with_key(
                old(keys)@,
                ref_key_fn(factorio.order_of_entries@),
                k,
            ),
{
    let ghost f = ref_key_fn(factorio.order_of_entries@);
    let mut ks: Vec<(usize, (usize, usize, usize), Vec<char>)> = Vec::new();
    let mut i: usize = 0;
    while i < keys.len()
        invariant
            i <= keys.len(),
            keys@ == old(keys)@,
            forall|j: int| 0 <= j < keys.len() ==> key_defined(*#[trigger] keys@[j], factorio.order_of_entries@),
            ks.len() == i,
            f == ref_key_fn(factorio.order_of_entries@),
            forall|j: int| 0 <= j < i ==> key_view(#[trigger] ks@[j]) == f(keys@[j]),
        decreases keys.len() - i,
    {
        ks.push(get_generic_item_sort_key(keys[i], factorio));
        i = i + 1;
    }
    sort_by_keys(keys, ks, Ghost(f));
}

/// `out` is in the order that sorting generic items leaves.
pub open spec fn sorted_for_display(out: Seq<GenericItem>, orders: Map<Seq<char>, ReverseOrderInfo>) -> bool {
    forall|i: int, j: int| 0 <= i < j < out.len() ==> key_le(sort_key(out[i], orders), sort_key(out[j], orders))
}

/// `pb` comes strictly before `pa` in display position (group, subgroup,
/// place in the subgroup).
pub open spec fn position_before(pb: (usize, usize, usize), pa: (usize, usize, usize)) -> bool {
    pb.0 < pa.0 || (pb.0 == pa.0 && (pb.1 < pa.1 || (pb.1 == pa.1 && pb.2 < pa.2)))
}

/// In sorted output, items come before fluids and fluids before entities;
/// items go by rising quality, and so do entities.
pub proof fn lemma_sorted_kinds_and_qualities(
    out: Seq<GenericItem>,
    orders: Map<Seq<char>, ReverseOrderInfo>,
    i: int,
    j: int,
)
    requires
        sorted_for_display(out, orders),
        0 <= i < j < out.len(),
    ensures
        out[j] is Item ==> out[i] is Item,
        out[i] is Entity ==> out[j] !is Item && out[j] !is Fluid,
        (out[i] is Item && out[j] is Item) ==> out[i]->Item_0.1 <= out[j]->Item_0.1,
        (out[i] is Entity && out[j] is Entity) ==> out[i]->Entity_0.1 <= out[j]->Entity_0.1,
{
    assert(key_le(sort_key(out[i], orders), sort_key(out[j], orders)));
}

/// In sorted output, two items of the same quality listed in the item
/// display table come in display order.
pub proof fn lemma_sorted_items_follow_display_order(
    out: Seq<GenericItem>,
    orders: Map<Seq<char>, ReverseOrderInfo>,
    i: int,
    j: int,
    a: Seq<char>,
    b: Seq<char>,
    q: u8,
)
    requires
        sorted_for_display(out, orders),
        0 <= i < j < out.len(),
        out[i] is Item && out[i]->Item_0.0@ == a && out[i]->Item_0.1 == q,
        out[j] is Item && out[j]->Item_0.0@ == b && out[j]->Item_0.1 == q,
        orders.contains_key(seq!['i', 't', 'e', 'm']),
        orders[seq!['i', 't', 'e', 'm']]@.contains_key(a),
        orders[seq!['i', 't', 'e', 'm']]@.contains_key(b),
    ensures
        !position_before(orders[seq!['i', 't', 'e', 'm']]@[b], orders[seq!['i', 't', 'e', 'm']]@[a]),
{
    assert(seq!['i', 't', 'e', 'm'] =~= item_key());
    assert(key_le(sort_key(out[i], orders), sort_key(out[j], orders)));
}

/// In sorted output, two fluids listed in the fluid display table come in
/// display order.
pub proof fn lemma_sorted_fluids_follow_display_order(
    out: Seq<GenericItem>,
    orders: Map<Seq<char>, ReverseOrderInfo>,
    i: int,
    j: int,
    a: Seq<char>,
    b: Seq<char>,
)
    requires
        sorted_for_display(out, orders),
        0 <= i < j < out.len(),
        out[i] is Fluid && out[i]->Fluid_name@ == a,
        out[j] is Fluid && out[j]->Fluid_name@ == b,
        orders.contains_key(seq!['f', 'l', 'u', 'i', 'd']),
        orders[seq!['f', 'l', 'u', 'i', 'd']]@.contains_key(a),
        orders[seq!['f', 'l', 'u', 'i', 'd']]@.contains_key(b),
    ensures
        !position_before(orders[seq!['f', 'l', 'u', 'i', 'd']]@[b], orders[seq!['f', 'l', 'u', 'i', 'd']]@[a]),
{
    assert(seq!['f', 'l', 'u', 'i', 'd'] =~= fluid_key());
    assert(key_le(sort_key(out[i], orders), sort_key(out[j], orders)));
}

/// In sorted output, two entities of the same quality listed in the entity
/// display table come in display order.
pub proof fn lemma_sorted_entities_follow_display_order(
    out: Seq<GenericItem>,
    orders: Map<Seq<char>, ReverseOrderInfo>,
    i: int,
    j: int,
    a: Seq<char>,
    b: Seq<char>,
    q: u8,
)
    requires
        sorted_for_display(out, orders),
        0 <= i < j < out.len(),
        out[i] is Entity && out[i]->Entity_0.0@ == a && out[i]->Entity_0.1 == q,
        out[j] is Entity && out[j]->Entity_0.0@ == b && out[j]->Entity_0.1 == q,
        orders.contains_key(seq!['e', 'n', 't', 'i', 't', 'y']),
        orders[seq!['e', 'n', 't', 'i', 't', 'y']]@.contains_key(a),
        orders[seq!['e', 'n', 't', 'i', 't', 'y']]@.contains_key(b),
    ensures
        !position_before(
            orders[seq!['e', 'n', 't', 'i', 't', 'y']]@[b],
            orders[seq!['e', 'n', 't', 'i', 't', 'y']]@[a],
        ),
{
    assert(seq!['e', 'n', 't', 'i', 't', 'y'] =~= entity_key());
    assert(key_le(sort_key(out[i], orders), sort_key(out[j], orders)));
}

} // verus!
