use vstd::prelude::*;

use crate::common::{Dict, HasPrototypeBase, ItemSubgroup, PrototypeBase};
use crate::data::DataContext;
use crate::model::{
    recipe_with_base, EntityPrototype, FluidPrototype, ItemPrototype, RecipePrototype, RecipeResult,
};
use crate::order::{
    get_order_info, get_reverse_order_info, is_order_info_of, is_reverse_of, protos_of, OrderInfo,
    ReverseOrderInfo,
};

verus! {

pub open spec fn fuel_category_key() -> Seq<char> {
    seq!['f', 'u', 'e', 'l', '-', 'c', 'a', 't', 'e', 'g', 'o', 'r', 'y']
}

pub open spec fn airborne_pollutant_key() -> Seq<char> {
    seq!['a', 'i', 'r', 'b', 'o', 'r', 'n', 'e', '-', 'p', 'o', 'l', 'l', 'u', 't', 'a', 'n', 't']
}

pub open spec fn item_key() -> Seq<char> {
    seq!['i', 't', 'e', 'm']
}

pub open spec fn recipe_key() -> Seq<char> {
    seq!['r', 'e', 'c', 'i', 'p', 'e']
}

pub open spec fn recipe_category_key() -> Seq<char> {
    seq!['r', 'e', 'c', 'i', 'p', 'e', '-', 'c', 'a', 't', 'e', 'g', 'o', 'r', 'y']
}

pub open spec fn fluid_key() -> Seq<char> {
    seq!['f', 'l', 'u', 'i', 'd']
}

pub open spec fn entity_key() -> Seq<char> {
    seq!['e', 'n', 't', 'i', 't', 'y']
}

pub open spec fn technology_key() -> Seq<char> {
    seq!['t', 'e', 'c', 'h', 'n', 'o', 'l', 'o', 'g', 'y']
}

pub open spec fn is_order_key(k: Seq<char>) -> bool {
    k == fuel_category_key() || k == airborne_pollutant_key() || k == item_key() || k
        == recipe_key() || k == recipe_category_key() || k == fluid_key() || k == entity_key() || k
        == technology_key()
}

/// The base of the last item named `name`.
pub open spec fn item_base(items: Seq<ItemPrototype>, name: Seq<char>) -> Option<PrototypeBase>
    decreases items.len(),
{
    if items.len() == 0 {
        None
    } else if items.last().base.name@ == name {
        Some(items.last().base)
    } else {
        item_base(items.drop_last(), name)
    }
}

/// The base of the last fluid named `name`.
pub open spec fn fluid_base(fluids: Seq<FluidPrototype>, name: Seq<char>) -> Option<PrototypeBase>
    decreases fluids.len(),
{
    if fluids.len() == 0 {
        None
    } else if fluids.last().base.name@ == name {
        Some(fluids.last().base)
    } else {
        fluid_base(fluids.drop_last(), name)
    }
}

/// The base of the last item that places the entity named `name`.
pub open spec fn placing_item_base(items: Seq<ItemPrototype>, name: Seq<char>) -> Option<PrototypeBase>
    decreases items.len(),
{
    if items.len() == 0 {
        None
    } else if items.last().place_result matches Some(p) && p@ == name {
        Some(items.last().base)
    } else {
        placing_item_base(items.drop_last(), name)
    }
}

/// `b` with the subgroup and order of `src`, when there is one.
pub open spec fn with_order_of(b: PrototypeBase, src: Option<PrototypeBase>) -> PrototypeBase {
    match src {
        Some(s) => PrototypeBase { subgroup: s.subgroup, order: s.order, ..b },
        None => b,
    }
}

/// The base of the product that `r` names.
pub open spec fn result_base(
    r: RecipeResult,
    items: Seq<ItemPrototype>,
    fluids: Seq<FluidPrototype>,
) -> Option<PrototypeBase> {
    match r {
        RecipeResult::Item { name } => item_base(items, name@),
        RecipeResult::Fluid { name } => fluid_base(fluids, name@),
    }
}

/// The base of the last product named like the recipe that is known.
pub open spec fn same_name_result_base(
    results: Seq<RecipeResult>,
    recipe_name: Seq<char>,
    items: Seq<ItemPrototype>,
    fluids: Seq<FluidPrototype>,
) -> Option<PrototypeBase>
    decreases results.len(),
{
    if results.len() == 0 {
        None
    } else {
        let r = results.last();
        let name = match r {
            RecipeResult::Item { name } => name@,
            RecipeResult::Fluid { name } => name@,
        };
        let this = if name == recipe_name {
            result_base(r, items, fluids)
        } else {
            None
        };
        match this {
            Some(b) => Some(b),
            None => same_name_result_base(results.drop_last(), recipe_name, items, fluids),
        }
    }
}

/// A shown recipe without its own order or subgroup takes them from its
/// product: its only product, else its main product (an item), else a
/// product named like the recipe.
pub open spec fn derived_recipe_base(
    recipe: RecipePrototype,
    items: Seq<ItemPrototype>,
    fluids: Seq<FluidPrototype>,
) -> PrototypeBase {
    let b = recipe.base;
    if (b.order@.len() == 0 || b.subgroup@.len() == 0) && !b.hidden {
        if recipe.results.len() == 1 {
            with_order_of(b, result_base(recipe.results@[0], items, fluids))
        } else if recipe.main_product is Some {
            with_order_of(b, item_base(items, recipe.main_product->0@))
        } else {
            with_order_of(b, same_name_result_base(recipe.results@, b.name@, items, fluids))
        }
    } else {
        b
    }
}

fn copy_order(b: &mut PrototypeBase, src: &PrototypeBase)
    ensures
        *final(b) == with_order_of(*old(b), Some(*src)),
{
    b.subgroup = src.subgroup.clone();
    b.order = src.order.clone();
}

fn find_item_base<'a>(items: &'a Vec<ItemPrototype>, name: &String) -> (r: Option<&'a PrototypeBase>)
    ensures
        match r {
            Some(b) => item_base(items@, name@) == Some(*b),
            None => item_base(items@, name@) is None,
        },
{
    let mut i: usize = items.len();
    proof {
        assert(items@.take(items.len() as int) =~= items@);
    }
    while i > 0
        invariant
            i <= items.len(),
            item_base(items@, name@) == item_base(items@.take(i as int), name@),
        decreases i,
    {
        proof {
            assert(items@.take(i as int).drop_last() =~= items@.take(i - 1));
            assert(items@.take(i as int).last() == items@[i - 1]);
        }
        if items[i - 1].base.name == *name {
            return Some(&items[i - 1].base);
        }
        i = i - 1;
    }
    proof {
        assert(items@.take(0) =~= Seq::<ItemPrototype>::empty());
    }
    None
}

fn find_fluid_base<'a>(fluids: &'a Vec<FluidPrototype>, name: &String) -> (r: Option<&'a PrototypeBase>)
    ensures
        match r {
            Some(b) => fluid_base(fluids@, name@) == Some(*b),
            None => fluid_base(fluids@, name@) is None,
        },
{
    let mut i: usize = fluids.len();
    proof {
        assert(fluids@.take(fluids.len() as int) =~= fluids@);
    }
    while i > 0
        invariant
            i <= fluids.len(),
            fluid_base(fluids@, name@) == fluid_base(fluids@.take(i as int), name@),
        decreases i,
    {
        proof {
            assert(fluids@.take(i as int).drop_last() =~= fluids@.take(i - 1));
            assert(fluids@.take(i as int).last() == fluids@[i - 1]);
        }
        if fluids[i - 1].base.name == *name {
            return Some(&fluids[i - 1].base);
        }
        i = i - 1;
    }
    proof {
        assert(fluids@.take(0) =~= Seq::<FluidPrototype>::empty());
    }
    None
}

fn find_placing_item<'a>(items: &'a Vec<ItemPrototype>, name: &String) -> (r: Option<&'a PrototypeBase>)
    ensures
        match r {
            Some(b) => placing_item_base(items@, name@) == Some(*b),
            None => placing_item_base(items@, name@) is None,
        },
{
    let mut i: usize = items.len();
    proof {
        assert(items@.take(items.len() as int) =~= items@);
    }
    while i > 0
        invariant
            i <= items.len(),
            placing_item_base(items@, name@) == placing_item_base(items@.take(i as int), name@),
        decreases i,
    {
        proof {
            assert(items@.take(i as int).drop_last() =~= items@.take(i - 1));
            assert(items@.take(i as int).last() == items@[i - 1]);
        }
        let places = match &items[i - 1].place_result {
            Some(p) => *p == *name,
            None => false,
        };
        if places {
            return Some(&items[i - 1].base);
        }
        i = i - 1;
    }
    proof {
        assert(items@.take(0) =~= Seq::<ItemPrototype>::empty());
    }
    None
}

fn find_result_base<'a>(
    r: &RecipeResult,
    items: &'a Vec<ItemPrototype>,
    fluids: &'a Vec<FluidPrototype>,
) -> (b: Option<&'a PrototypeBase>)
    ensures
        match b {
            Some(x) => result_base(*r, items@, fluids@) == Some(*x),
            None => result_base(*r, items@, fluids@) is None,
        },
{
    match r {
        RecipeResult::Item { name } => find_item_base(items, name),
        RecipeResult::Fluid { name } => find_fluid_base(fluids, name),
    }
}

fn find_same_name_result<'a>(
    results: &Vec<RecipeResult>,
    recipe_name: &String,
    items: &'a Vec<ItemPrototype>,
    fluids: &'a Vec<FluidPrototype>,
) -> (b: Option<&'a PrototypeBase>)
    ensures
        match b {
            Some(x) => same_name_result_base(results@, recipe_name@, items@, fluids@) == Some(*x),
            None => same_name_result_base(results@, recipe_name@, items@, fluids@) is None,
        },
{
    let mut i: usize = results.len();
    proof {
        assert(results@.take(results.len() as int) =~= results@);
    }
    while i > 0
        invariant
            i <= results.len(),
            same_name_result_base(results@, recipe_name@, items@, fluids@) == same_name_result_base(
                results@.take(i as int),
                recipe_name@,
                items@,
                fluids@,
            ),
        decreases i,
    {
        proof {
            assert(results@.take(i as int).drop_last() =~= results@.take(i - 1));
            assert(results@.take(i as int).last() == results@[i - 1]);
        }
        let r = &results[i - 1];
        let same = match r {
            RecipeResult::Item { name } => *name == *recipe_name,
            RecipeResult::Fluid { name } => *name == *recipe_name,
        };
        if same {
            let found = find_result_base(r, items, fluids);
            if found.is_some() {
                return found;
            }
        }
        i = i - 1;
    }
    proof {
        assert(results@.take(0) =~= Seq::<RecipeResult>::empty());
    }
    None
}

/// The base that `recipe` takes its order from, if any.
fn recipe_order_source<'a>(
    recipe: &RecipePrototype,
    items: &'a Vec<ItemPrototype>,
    fluids: &'a Vec<FluidPrototype>,
) -> (b: Option<&'a PrototypeBase>)
    ensures
        with_order_of(recipe.base, match b {
            Some(x) => Some(*x),
            None => None,
        }) == derived_recipe_base(*recipe, items@, fluids@),
{
    let base = &recipe.base;
    if (base.order.as_str().is_empty() || base.subgroup.as_str().is_empty()) && !base.hidden {
        if recipe.results.len() == 1 {
            find_result_base(&recipe.results[0], items, fluids)
        } else if let Some(main_product) = &recipe.main_product {
            find_item_base(items, main_product)
        } else {
            find_same_name_result(&recipe.results, &base.name, items, fluids)
        }
    } else {
        None
    }
}

/// The subgroup and order that `recipe` takes over, if any.
fn recipe_order_copy(
    recipe: &RecipePrototype,
    items: &Vec<ItemPrototype>,
    fluids: &Vec<FluidPrototype>,
) -> (r: Option<PrototypeBase>)
    ensures
        with_order_of(recipe.base, r) == derived_recipe_base(*recipe, items@, fluids@),
{
    match recipe_order_source(recipe, items, fluids) {
        Some(b) => Some(
            PrototypeBase {
                prototype_type: b.prototype_type.clone(),
                name: b.name.clone(),
                order: b.order.clone(),
                subgroup: b.subgroup.clone(),
                hidden: b.hidden,
                parameter: b.parameter,
            },
        ),
        None => None,
    }
}

/// The subgroup and order that the entity named `name` takes over, if any.
fn entity_order_copy(items: &Vec<ItemPrototype>, name: &String) -> (r: Option<PrototypeBase>)
    ensures
        r == placing_item_base(items@, name@),
{
    match find_placing_item(items, name) {
        Some(b) => Some(
            PrototypeBase {
                prototype_type: b.prototype_type.clone(),
                name: b.name.clone(),
                order: b.order.clone(),
                subgroup: b.subgroup.clone(),
                hidden: b.hidden,
                parameter: b.parameter,
            },
        ),
        None => None,
    }
}

fn apply_order(b: &mut PrototypeBase, src: Option<PrototypeBase>)
    ensures
        *final(b) == with_order_of(*old(b), src),
{
    if let Some(s) = src {
        b.subgroup = s.subgroup;
        b.order = s.order;
    }
}

/// Lists the prototypes of `vec` under `key`, in display order and
/// reversed.
fn add_order<T: HasPrototypeBase>(
    ordered: &mut Dict<OrderInfo>,
    orders: &mut Dict<ReverseOrderInfo>,
    key: &str,
    vec: &Vec<T>,
    groups: &Dict<PrototypeBase>,
    subgroups: &Dict<ItemSubgroup>,
)
    ensures
        final(ordered)@ == old(ordered)@.insert(key@, final(ordered)@[key@]),
        final(orders)@ == old(orders)@.insert(key@, final(orders)@[key@]),
        is_order_info_of(final(ordered)@[key@].deep_view(), protos_of(vec@), groups@, subgroups@),
        is_reverse_of(final(orders)@[key@]@, final(ordered)@[key@].deep_view()),
{
    let info = get_order_info(vec, groups, subgroups);
    let rev = get_reverse_order_info(&info);
    ordered.insert(key.to_string(), info);
    orders.insert(key.to_string(), rev);
}

/// What `build_order_info` leaves under `key`: the prototypes of `protos`
/// in display order, and reversed.
pub open spec fn lists_order(new: DataContext, key: Seq<char>, protos: Seq<PrototypeBase>) -> bool {
    &&& new.ordered_entries@.contains_key(key)
    &&& new.order_of_entries@.contains_key(key)
    &&& is_order_info_of(new.ordered_entries@[key].deep_view(), protos, new.groups@, new.subgroups@)
    &&& is_reverse_of(new.order_of_entries@[key]@, new.ordered_entries@[key].deep_view())
}

pub open spec fn entity_with_order(e: EntityPrototype, items: Seq<ItemPrototype>) -> EntityPrototype {
    EntityPrototype { base: with_order_of(e.base, placing_item_base(items, e.base.name@)), ..e }
}

/// `new` is `old` with orders built: recipes and entities without their
/// own order take it over, and each kind of prototype is listed in display
/// order.
pub open spec fn orders_built(old: DataContext, new: DataContext) -> bool {
    &&& new.recipes@.len() == old.recipes@.len()
    &&& forall|k: int|
        0 <= k < old.recipes@.len() ==> #[trigger] new.recipes@[k] == recipe_with_base(
            old.recipes@[k],
            derived_recipe_base(old.recipes@[k], old.items@, old.fluids@),
        )
    &&& new.entities@.len() == old.entities@.len()
    &&& forall|k: int|
        0 <= k < old.entities@.len() ==> #[trigger] new.entities@[k] == entity_with_order(
            old.entities@[k],
            old.items@,
        )
    &&& new.mods == old.mods
    &&& new.technologies == old.technologies
    &&& new.fuel_categories == old.fuel_categories
    &&& new.airborne_pollutants == old.airborne_pollutants
    &&& new.qualities == old.qualities
    &&& new.items == old.items
    &&& new.fluids == old.fluids
    &&& new.crafters == old.crafters
    &&& new.recipe_categories == old.recipe_categories
    &&& new.resources == old.resources
    &&& new.miners == old.miners
    &&& new.tiles == old.tiles
    &&& new.localized_name == old.localized_name
    &&& new.localized_description == old.localized_description
    &&& new.groups == old.groups
    &&& new.subgroups == old.subgroups
    &&& lists_order(new, fuel_category_key(), protos_of(new.fuel_categories@))
    &&& lists_order(new, airborne_pollutant_key(), protos_of(new.airborne_pollutants@))
    &&& lists_order(new, item_key(), protos_of(new.items@))
    &&& lists_order(new, recipe_key(), protos_of(new.recipes@))
    &&& lists_order(new, recipe_category_key(), protos_of(new.recipe_categories@))
    &&& lists_order(new, fluid_key(), protos_of(new.fluids@))
    &&& lists_order(new, entity_key(), protos_of(new.entities@))
    &&& lists_order(new, technology_key(), protos_of(new.technologies@))
    &&& forall|k: Seq<char>|
        !is_order_key(k) ==> (#[trigger] new.ordered_entries@.contains_key(k)
            == old.ordered_entries@.contains_key(k) && new.order_of_entries@.contains_key(k)
            == old.order_of_entries@.contains_key(k) && (new.ordered_entries@.contains_key(k)
            ==> new.ordered_entries@[k] == old.ordered_entries@[k]) && (
        new.order_of_entries@.contains_key(k) ==> new.order_of_entries@[k]
            == old.order_of_entries@[k]))
}

impl DataContext {
    /// Gives recipes and entities without their own order the order of
    /// their product or of the item that places them, then lists fuel
    /// categories, airborne pollutants, items, recipes, recipe categories,
    /// fluids, entities and technologies in display order, each also
    /// reversed.
    pub fn build_order_info(self) -> (r: Self)
        ensures
            orders_built(self, r),
    {
        let ghost old_self = self;
        let mut s = self;
        proof {
            reveal_strlit("fuel-category");
            reveal_strlit("airborne-pollutant");
            reveal_strlit("item");
            reveal_strlit("recipe");
            reveal_strlit("recipe-category");
            reveal_strlit("fluid");
            reveal_strlit("entity");
            reveal_strlit("technology");
            assert("fuel-category"@ =~= fuel_category_key());
            assert("airborne-pollutant"@ =~= airborne_pollutant_key());
            assert("item"@ =~= item_key());
            assert("recipe"@ =~= recipe_key());
            assert("recipe-category"@ =~= recipe_category_key());
            assert("fluid"@ =~= fluid_key());
            assert("entity"@ =~= entity_key());
            assert("technology"@ =~= technology_key());
        }
        add_order(&mut s.ordered_entries, &mut s.order_of_entries, "fuel-category", &s.fuel_categories, &s.groups, &s.subgroups);
        add_order(&mut s.ordered_entries, &mut s.order_of_entries, "airborne-pollutant", &s.airborne_pollutants, &s.groups, &s.subgroups);
        add_order(&mut s.ordered_entries, &mut s.order_of_entries, "item", &s.items, &s.groups, &s.subgroups);
        let ghost after_items = s;
        let mut k: usize = 0;
        while k < s.recipes.len()
            invariant
                k <= s.recipes.len(),
                s.recipes@.len() == old_self.recipes@.len(),
                s.items == old_self.items,
                s.fluids == old_self.fluids,
                forall|j: int| k <= j < s.recipes@.len() ==> #[trigger] s.recipes@[j] == old_self.recipes@[j],
                forall|j: int| 0 <= j < k ==> #[trigger] s.recipes@[j] == recipe_with_base(
                    old_self.recipes@[j],
                    derived_recipe_base(old_self.recipes@[j], old_self.items@, old_self.fluids@),
                ),
                s == (DataContext { recipes: s.recipes, ..after_items }),
            decreases s.recipes.len() - k,
        {
            let ghost before = s.recipes@;
            let mut recipe = s.recipes.remove(k);
            let src = recipe_order_copy(&recipe, &s.items, &s.fluids);
            apply_order(&mut recipe.base, src);
            s.recipes.insert(k, recipe);
            proof {
                assert forall|j: int| 0 <= j < s.recipes@.len() && j != k implies #[trigger] s.recipes@[j] == before[j] by {
                }
            }
            k = k + 1;
        }
        add_order(&mut s.ordered_entries, &mut s.order_of_entries, "recipe", &s.recipes, &s.groups, &s.subgroups);
        add_order(&mut s.ordered_entries, &mut s.order_of_entries, "recipe-category", &s.recipe_categories, &s.groups, &s.subgroups);
        add_order(&mut s.ordered_entries, &mut s.order_of_entries, "fluid", &s.fluids, &s.groups, &s.subgroups);
        let ghost after_fluids = s;
        let mut k: usize = 0;
        while k < s.entities.len()
            invariant
                k <= s.entities.len(),
                s.entities@.len() == old_self.entities@.len(),
                s.items == old_self.items,
                forall|j: int| k <= j < s.entities@.len() ==> #[trigger] s.entities@[j] == old_self.entities@[j],
                forall|j: int| 0 <= j < k ==> #[trigger] s.entities@[j] == entity_with_order(
                    old_self.entities@[j],
                    old_self.items@,
                ),
                s == (DataContext { entities: s.entities, ..after_fluids }),
            decreases s.entities.len() - k,
        {
            let ghost before = s.entities@;
            let mut entity = s.entities.remove(k);
            let src = entity_order_copy(&s.items, &entity.base.name);
            apply_order(&mut entity.base, src);
            s.entities.insert(k, entity);
            proof {
                assert forall|j: int| 0 <= j < s.entities@.len() && j != k implies #[trigger] s.entities@[j] == before[j] by {
                }
            }
            k = k + 1;
        }
        add_order(&mut s.ordered_entries, &mut s.order_of_entries, "entity", &s.entities, &s.groups, &s.subgroups);
        add_order(&mut s.ordered_entries, &mut s.order_of_entries, "technology", &s.technologies, &s.groups, &s.subgroups);
        s
    }
}

proof fn lemma_fluid_base_last(fluids: Seq<FluidPrototype>, name: Seq<char>, f: int)
    requires
        0 <= f < fluids.len(),
        fluids[f].base.name@ == name,
        forall|g: int| f < g < fluids.len() ==> #[trigger] fluids[g].base.name@ != name,
    ensures
        fluid_base(fluids, name) == Some(fluids[f].base),
    decreases fluids.len(),
{
    if f < fluids.len() - 1 {
        assert(fluids.last() == fluids[fluids.len() - 1]);
        let d = fluids.drop_last();
        assert forall|g: int| f < g < d.len() implies #[trigger] d[g].base.name@ != name by {
            assert(d[g] == fluids[g]);
        }
        lemma_fluid_base_last(d, name, f);
    }
}

proof fn lemma_fluid_base_none(fluids: Seq<FluidPrototype>, name: Seq<char>)
    requires
        forall|g: int| 0 <= g < fluids.len() ==> #[trigger] fluids[g].base.name@ != name,
    ensures
        fluid_base(fluids, name) == None::<PrototypeBase>,
    decreases fluids.len(),
{
    if fluids.len() > 0 {
        assert(fluids.last() == fluids[fluids.len() - 1]);
        let d = fluids.drop_last();
        assert forall|g: int| 0 <= g < d.len() implies #[trigger] d[g].base.name@ != name by {
            assert(d[g] == fluids[g]);
        }
        lemma_fluid_base_none(d, name);
    }
}

proof fn lemma_item_base_last(items: Seq<ItemPrototype>, name: Seq<char>, f: int)
    requires
        0 <= f < items.len(),
        items[f].base.name@ == name,
        forall|g: int| f < g < items.len() ==> #[trigger] items[g].base.name@ != name,
    ensures
        item_base(items, name) == Some(items[f].base),
    decreases items.len(),
{
    if f < items.len() - 1 {
        assert(items.last() == items[items.len() - 1]);
        let d = items.drop_last();
        assert forall|g: int| f < g < d.len() implies #[trigger] d[g].base.name@ != name by {
            assert(d[g] == items[g]);
        }
        lemma_item_base_last(d, name, f);
    }
}

/// A shown recipe without its own order or subgroup whose only product is
/// a fluid takes the subgroup and order of that fluid (the last fluid of
/// that name), and keeps its name.
pub proof fn lemma_fluid_recipe_takes_fluid_order(old: DataContext, new: DataContext, k: int, f: int)
    requires
        orders_built(old, new),
        0 <= k < old.recipes@.len(),
        old.recipes@[k].base.order@.len() == 0 || old.recipes@[k].base.subgroup@.len() == 0,
        !old.recipes@[k].base.hidden,
        old.recipes@[k].results@.len() == 1,
        old.recipes@[k].results@[0] is Fluid,
        0 <= f < old.fluids@.len(),
        old.fluids@[f].base.name@ == old.recipes@[k].results@[0]->Fluid_name@,
        forall|g: int|
            f < g < old.fluids@.len() ==> #[trigger] old.fluids@[g].base.name@
                != old.recipes@[k].results@[0]->Fluid_name@,
    ensures
        new.recipes@[k].base.order == old.fluids@[f].base.order,
        new.recipes@[k].base.subgroup == old.fluids@[f].base.subgroup,
        new.recipes@[k].base.name == old.recipes@[k].base.name,
{
    lemma_fluid_base_last(old.fluids@, old.recipes@[k].results@[0]->Fluid_name@, f);
}

/// A shown recipe without its own order or subgroup whose only product is
/// an item takes the subgroup and order of that item (the last item of
/// that name), and keeps its name.
pub proof fn lemma_item_recipe_takes_item_order(old: DataContext, new: DataContext, k: int, f: int)
    requires
        orders_built(old, new),
        0 <= k < old.recipes@.len(),
        old.recipes@[k].base.order@.len() == 0 || old.recipes@[k].base.subgroup@.len() == 0,
        !old.recipes@[k].base.hidden,
        old.recipes@[k].results@.len() == 1,
        old.recipes@[k].results@[0] is Item,
        0 <= f < old.items@.len(),
        old.items@[f].base.name@ == old.recipes@[k].results@[0]->Item_name@,
        forall|g: int|
            f < g < old.items@.len() ==> #[trigger] old.items@[g].base.name@
                != old.recipes@[k].results@[0]->Item_name@,
    ensures
        new.recipes@[k].base.order == old.items@[f].base.order,
        new.recipes@[k].base.subgroup == old.items@[f].base.subgroup,
        new.recipes@[k].base.name == old.recipes@[k].base.name,
{
    lemma_item_base_last(old.items@, old.recipes@[k].results@[0]->Item_name@, f);
}

/// A recipe whose only product is a fluid that no fluid prototype names
/// keeps its own base.
pub proof fn lemma_unknown_fluid_recipe_unchanged(old: DataContext, new: DataContext, k: int)
    requires
        orders_built(old, new),
        0 <= k < old.recipes@.len(),
        old.recipes@[k].results@.len() == 1,
        old.recipes@[k].results@[0] is Fluid,
        forall|g: int|
            0 <= g < old.fluids@.len() ==> #[trigger] old.fluids@[g].base.name@
                != old.recipes@[k].results@[0]->Fluid_name@,
    ensures
        new.recipes@[k].base == old.recipes@[k].base,
{
    lemma_fluid_base_none(old.fluids@, old.recipes@[k].results@[0]->Fluid_name@);
}

/// A recipe with its own order and subgroup, or a hidden one, keeps its
/// base.
pub proof fn lemma_ordered_recipe_unchanged(old: DataContext, new: DataContext, k: int)
    requires
        orders_built(old, new),
        0 <= k < old.recipes@.len(),
        (old.recipes@[k].base.order@.len() > 0 && old.recipes@[k].base.subgroup@.len() > 0)
            || old.recipes@[k].base.hidden,
    ensures
        new.recipes@[k].base == old.recipes@[k].base,
{
}

proof fn lemma_placing_item_base_last(items: Seq<ItemPrototype>, name: Seq<char>, f: int)
    requires
        0 <= f < items.len(),
        items[f].place_result matches Some(p) && p@ == name,
        forall|g: int| f < g < items.len() ==> !(#[trigger] items[g].place_result matches Some(p) && p@ == name),
    ensures
        placing_item_base(items, name) == Some(items[f].base),
    decreases items.len(),
{
    if f < items.len() - 1 {
        assert(items.last() == items[items.len() - 1]);
        let d = items.drop_last();
        assert forall|g: int| f < g < d.len() implies !(#[trigger] d[g].place_result matches Some(p) && p@ == name) by {
            assert(d[g] == items[g]);
        }
        lemma_placing_item_base_last(d, name, f);
    }
}

/// A shown recipe without its own order or subgroup, with other than one
/// product and a main product, takes the subgroup and order of the item
/// named by its main product (the last item of that name).
pub proof fn lemma_main_product_recipe_takes_item_order(old: DataContext, new: DataContext, k: int, f: int)
    requires
        orders_built(old, new),
        0 <= k < old.recipes@.len(),
        old.recipes@[k].base.order@.len() == 0 || old.recipes@[k].base.subgroup@.len() == 0,
        !old.recipes@[k].base.hidden,
        old.recipes@[k].results@.len() != 1,
        old.recipes@[k].main_product is Some,
        0 <= f < old.items@.len(),
        old.items@[f].base.name@ == old.recipes@[k].main_product->0@,
        forall|g: int|
            f < g < old.items@.len() ==> #[trigger] old.items@[g].base.name@ != old.recipes@[k].main_product->0@,
    ensures
        new.recipes@[k].base.order == old.items@[f].base.order,
        new.recipes@[k].base.subgroup == old.items@[f].base.subgroup,
        new.recipes@[k].base.name == old.recipes@[k].base.name,
{
    lemma_item_base_last(old.items@, old.recipes@[k].main_product->0@, f);
}

/// An entity takes the subgroup and order of the item that places it (the
/// last such item), and keeps its name.
pub proof fn lemma_entity_takes_placing_item_order(old: DataContext, new: DataContext, k: int, f: int)
    requires
        orders_built(old, new),
        0 <= k < old.entities@.len(),
        0 <= f < old.items@.len(),
        old.items@[f].place_result matches Some(p) && p@ == old.entities@[k].base.name@,
        forall|g: int|
            f < g < old.items@.len() ==> !(#[trigger] old.items@[g].place_result matches Some(p) && p@
                == old.entities@[k].base.name@),
    ensures
        new.entities@[k].base.order == old.items@[f].base.order,
        new.entities@[k].base.subgroup == old.items@[f].base.subgroup,
        new.entities@[k].base.name == old.entities@[k].base.name,
{
    lemma_placing_item_base_last(old.items@, old.entities@[k].base.name@, f);
}

} // verus!
