use vstd::prelude::*;

use crate::common::{Dict, PrototypeBase};
use crate::data::DataContext;
use crate::graph::{is_available, locks_end, names_distinct, resolve_dependency, Modifier, TechnologyPrototype};
use crate::model::{RecipePrototype, RecipeResult, ResourcePrototype, ItemPrototype};
use crate::order::contains_string;
use crate::ordering::{entity_key, fluid_key, item_key, recipe_key};
use crate::text::string_views;
use crate::user::{prototype_accessible, ProjectContext};

verus! {

pub open spec fn space_location_key() -> Seq<char> {
    seq!['s', 'p', 'a', 'c', 'e', '-', 'l', 'o', 'c', 'a', 't', 'i', 'o', 'n']
}

pub open spec fn quality_key() -> Seq<char> {
    seq!['q', 'u', 'a', 'l', 'i', 't', 'y']
}

/// The name that researching `m` unlocks in the table `key`, if any.
pub open spec fn unlocked_by(m: Modifier, key: Seq<char>) -> Option<Seq<char>> {
    match m {
        Modifier::UnlockRecipe { recipe } => if key == recipe_key() { Some(recipe@) } else { None },
        Modifier::UnlockSpaceLocation { space_location } => if key == space_location_key() {
            Some(space_location@)
        } else {
            None
        },
        Modifier::UnlockQuality { quality } => if key == quality_key() { Some(quality@) } else { None },
        Modifier::Other => None,
    }
}

/// One of the effects of `tech` unlocks `n` in the table `key`.
pub open spec fn tech_unlocks(tech: TechnologyPrototype, key: Seq<char>, n: Seq<char>) -> bool {
    exists|k: int| 0 <= k < tech.effects.len() && #[trigger] unlocked_by(tech.effects@[k], key) == Some(n)
}

/// A technology that the milestones leave available unlocks `n` in the
/// table `key`.
pub open spec fn research_unlocks(
    techs: Seq<TechnologyPrototype>,
    milestones: Seq<(String, bool)>,
    key: Seq<char>,
    n: Seq<char>,
) -> bool {
    exists|i: int|
        0 <= i < techs.len() && is_available(techs, milestones, techs[i].base.name@)
            && #[trigger] tech_unlocks(techs[i], key, n)
}

pub open spec fn has_recipe(recipes: Seq<RecipePrototype>, n: Seq<char>) -> bool {
    exists|j: int| 0 <= j < recipes.len() && #[trigger] recipes[j].base.name@ == n
}

pub open spec fn enabled_recipe(recipes: Seq<RecipePrototype>, n: Seq<char>) -> bool {
    exists|j: int| 0 <= j < recipes.len() && #[trigger] recipes[j].base.name@ == n && recipes[j].enabled
}

/// A recipe may be used: research unlocks a recipe of that name, or a recipe
/// of that name is enabled from the start.
pub open spec fn recipe_unlocked(data: DataContext, milestones: Seq<(String, bool)>, n: Seq<char>) -> bool {
    ||| research_unlocks(data.technologies@, milestones, recipe_key(), n) && has_recipe(data.recipes@, n)
    ||| enabled_recipe(data.recipes@, n)
}

/// The name that a recipe or mining result adds to the table `key`, if any.
pub open spec fn result_name(r: RecipeResult, key: Seq<char>) -> Option<Seq<char>> {
    match r {
        RecipeResult::Item { name } => if key == item_key() { Some(name@) } else { None },
        RecipeResult::Fluid { name } => if key == fluid_key() { Some(name@) } else { None },
    }
}

pub open spec fn gives(results: Seq<RecipeResult>, key: Seq<char>, n: Seq<char>) -> bool {
    exists|q: int| 0 <= q < results.len() && #[trigger] result_name(results[q], key) == Some(n)
}

/// A visible recipe that may be used gives `n` of the table `key`.
pub open spec fn crafted(data: DataContext, milestones: Seq<(String, bool)>, key: Seq<char>, n: Seq<char>) -> bool {
    exists|j: int|
        0 <= j < data.recipes.len() && !data.recipes@[j].base.hidden && recipe_unlocked(
            data,
            milestones,
            data.recipes@[j].base.name@,
        ) && #[trigger] gives(data.recipes@[j].results@, key, n)
}

/// Mining `res` gives `n` of the table `key`.
pub open spec fn mine_gives(res: ResourcePrototype, key: Seq<char>, n: Seq<char>) -> bool {
    match res.base.minable {
        Some(m) => gives(m.results@, key, n) || (key == item_key() && m.result is Some
            && m.result->0@ == n),
        None => false,
    }
}

pub open spec fn mined(resources: Seq<ResourcePrototype>, key: Seq<char>, n: Seq<char>) -> bool {
    exists|j: int| 0 <= j < resources.len() && #[trigger] mine_gives(resources[j], key, n)
}

/// `n` of the table `key` (items or fluids) can be obtained.
pub open spec fn obtainable(data: DataContext, milestones: Seq<(String, bool)>, key: Seq<char>, n: Seq<char>) -> bool {
    crafted(data, milestones, key, n) || mined(data.resources@, key, n)
}

pub open spec fn places(item: ItemPrototype, n: Seq<char>) -> bool {
    item.place_result is Some && item.place_result->0@ == n
}

/// An item that can be obtained places the entity `n`.
pub open spec fn placed(data: DataContext, milestones: Seq<(String, bool)>, n: Seq<char>) -> bool {
    exists|j: int|
        0 <= j < data.items.len() && #[trigger] places(data.items@[j], n) && obtainable(
            data,
            milestones,
            item_key(),
            data.items@[j].base.name@,
        )
}

/// `n` is unlocked in the table `key`; a key that is none of the six tables
/// unlocks nothing.
pub open spec fn is_unlocked(data: DataContext, milestones: Seq<(String, bool)>, key: Seq<char>, n: Seq<char>) -> bool {
    if key == recipe_key() {
        recipe_unlocked(data, milestones, n)
    } else if key == space_location_key() || key == quality_key() {
        research_unlocks(data.technologies@, milestones, key, n)
    } else if key == item_key() || key == fluid_key() {
        obtainable(data, milestones, key, n)
    } else if key == entity_key() {
        placed(data, milestones, n)
    } else {
        false
    }
}

pub open spec fn unlocked_names(data: DataContext, milestones: Seq<(String, bool)>, key: Seq<char>) -> Set<
    Seq<char>,
> {
    Set::new(|n: Seq<char>| is_unlocked(data, milestones, key, n))
}

pub open spec fn all_true(t: Map<Seq<char>, bool>) -> bool {
    forall|n: Seq<char>| #[trigger] t.contains_key(n) ==> t[n]
}

/// The tables of unlocked prototypes: a table stands for each key that
/// unlocks something, and lists exactly what it unlocks.
pub open spec fn tables_hold(
    tables: Map<Seq<char>, Dict<bool>>,
    data: DataContext,
    milestones: Seq<(String, bool)>,
) -> bool {
    &&& forall|key: Seq<char>| #[trigger]
        tables.contains_key(key) <==> !unlocked_names(data, milestones, key).is_empty()
    &&& forall|key: Seq<char>| #[trigger]
        tables.contains_key(key) ==> tables[key]@.dom() == unlocked_names(data, milestones, key)
            && all_true(tables[key]@)
}

/// Quality `n` may be used under `tables`.
pub open spec fn quality_open(tables: Map<Seq<char>, Dict<bool>>, n: Seq<char>) -> bool {
    prototype_accessible(tables, quality_key(), n)
}

/// How many quality levels, from index `i` up, may be used before the first
/// that may not.
pub open spec fn open_levels(tables: Map<Seq<char>, Dict<bool>>, qualities: Seq<PrototypeBase>, i: int) -> int
    decreases qualities.len() - i,
{
    if i < 0 || i >= qualities.len() {
        0
    } else if quality_open(tables, qualities[i].name@) {
        1 + open_levels(tables, qualities, i + 1)
    } else {
        0
    }
}

proof fn lemma_keys_distinct()
    ensures
        recipe_key() != space_location_key(),
        recipe_key() != quality_key(),
        recipe_key() != item_key(),
        recipe_key() != fluid_key(),
        recipe_key() != entity_key(),
        space_location_key() != quality_key(),
        space_location_key() != item_key(),
        space_location_key() != fluid_key(),
        space_location_key() != entity_key(),
        quality_key() != item_key(),
        quality_key() != fluid_key(),
        quality_key() != entity_key(),
        item_key() != fluid_key(),
        item_key() != entity_key(),
        fluid_key() != entity_key(),
{
    assert(recipe_key()[0] != entity_key()[0]);
}

/// Whether some recipe is named `n`.
fn find_recipe(recipes: &Vec<RecipePrototype>, n: &String) -> (r: bool)
    ensures
        r == has_recipe(recipes@, n@),
{
    let mut j: usize = 0;
    while j < recipes.len()
        invariant
            j <= recipes.len(),
            forall|t: int| 0 <= t < j ==> #[trigger] recipes@[t].base.name@ != n@,
        decreases recipes.len() - j,
    {
        if recipes[j].base.name == *n {
            return true;
        }
        j = j + 1;
    }
    false
}


/// Adds what the effects of `tech` unlock: recipes that exist, space
/// locations and qualities.
fn note_tech_unlocks(
    tech: &TechnologyPrototype,
    recipes: &Vec<RecipePrototype>,
    rt: &mut Dict<bool>,
    st: &mut Dict<bool>,
    qt: &mut Dict<bool>,
)
    requires
        all_true(old(rt)@),
        all_true(old(st)@),
        all_true(old(qt)@),
    ensures
        all_true(final(rt)@),
        all_true(final(st)@),
        all_true(final(qt)@),
        forall|n: Seq<char>| #[trigger]
            final(rt)@.contains_key(n) <==> old(rt)@.contains_key(n) || (tech_unlocks(
                *tech,
                recipe_key(),
                n,
            ) && has_recipe(recipes@, n)),
        forall|n: Seq<char>| #[trigger]
            final(st)@.contains_key(n) <==> old(st)@.contains_key(n) || tech_unlocks(
                *tech,
                space_location_key(),
                n,
            ),
        forall|n: Seq<char>| #[trigger]
            final(qt)@.contains_key(n) <==> old(qt)@.contains_key(n) || tech_unlocks(*tech, quality_key(), n),
{
    let ghost r0 = rt@;
    let ghost s0 = st@;
    let ghost q0 = qt@;
    proof {
        lemma_keys_distinct();
    }
    let mut k: usize = 0;
    while k < tech.effects.len()
        invariant
            k <= tech.effects.len(),
            all_true(rt@),
            all_true(st@),
            all_true(qt@),
            forall|n: Seq<char>| #[trigger]
                rt@.contains_key(n) <==> r0.contains_key(n) || ((exists|t: int|
                    0 <= t < k && #[trigger] unlocked_by(tech.effects@[t], recipe_key()) == Some(n))
                    && has_recipe(recipes@, n)),
            forall|n: Seq<char>| #[trigger]
                st@.contains_key(n) <==> s0.contains_key(n) || (exists|t: int|
                    0 <= t < k && #[trigger] unlocked_by(tech.effects@[t], space_location_key()) == Some(n)),
            forall|n: Seq<char>| #[trigger]
                qt@.contains_key(n) <==> q0.contains_key(n) || (exists|t: int|
                    0 <= t < k && #[trigger] unlocked_by(tech.effects@[t], quality_key()) == Some(n)),
            recipe_key() != space_location_key(),
            recipe_key() != quality_key(),
            space_location_key() != quality_key(),
        decreases tech.effects.len() - k,
    {
        let ghost m = tech.effects@[k as int];
        assert(unlocked_by(m, recipe_key()) == unlocked_by(tech.effects@[k as int], recipe_key()));
        assert(unlocked_by(m, space_location_key()) == unlocked_by(tech.effects@[k as int], space_location_key()));
        assert(unlocked_by(m, quality_key()) == unlocked_by(tech.effects@[k as int], quality_key()));
        match &tech.effects[k] {
            Modifier::UnlockRecipe { recipe } => {
                if find_recipe(recipes, recipe) {
                    rt.insert(recipe.clone(), true);
                }
            },
            Modifier::UnlockSpaceLocation { space_location } => {
                st.insert(space_location.clone(), true);
            },
            Modifier::UnlockQuality { quality } => {
                qt.insert(quality.clone(), true);
            },
            Modifier::Other => {},
        }
        k = k + 1;
    }
}


/// The recipes, space locations and qualities that the available
/// technologies unlock; `accessible` names those technologies.
fn research_tables(
    techs: &Vec<TechnologyPrototype>,
    accessible: &Vec<String>,
    recipes: &Vec<RecipePrototype>,
    Ghost(milestones): Ghost<Seq<(String, bool)>>,
) -> (r: (Dict<bool>, Dict<bool>, Dict<bool>))
    requires
        forall|n: Seq<char>| #[trigger]
            string_views(accessible@).contains(n) <==> is_available(techs@, milestones, n),
    ensures
        all_true(r.0@),
        all_true(r.1@),
        all_true(r.2@),
        forall|n: Seq<char>| #[trigger]
            r.0@.contains_key(n) <==> research_unlocks(techs@, milestones, recipe_key(), n) && has_recipe(
                recipes@,
                n,
            ),
        forall|n: Seq<char>| #[trigger]
            r.1@.contains_key(n) <==> research_unlocks(techs@, milestones, space_location_key(), n),
        forall|n: Seq<char>| #[trigger]
            r.2@.contains_key(n) <==> research_unlocks(techs@, milestones, quality_key(), n),
{
    let mut rt: Dict<bool> = Dict::new();
    let mut st: Dict<bool> = Dict::new();
    let mut qt: Dict<bool> = Dict::new();
    let mut i: usize = 0;
    while i < techs.len()
        invariant
            i <= techs.len(),
            forall|n: Seq<char>| #[trigger]
                string_views(accessible@).contains(n) <==> is_available(techs@, milestones, n),
            all_true(rt@),
            all_true(st@),
            all_true(qt@),
            forall|n: Seq<char>| #[trigger]
                rt@.contains_key(n) <==> (exists|t: int|
                    0 <= t < i && is_available(techs@, milestones, techs@[t].base.name@)
                        && #[trigger] tech_unlocks(techs@[t], recipe_key(), n)) && has_recipe(recipes@, n),
            forall|n: Seq<char>| #[trigger]
                st@.contains_key(n) <==> (exists|t: int|
                    0 <= t < i && is_available(techs@, milestones, techs@[t].base.name@)
                        && #[trigger] tech_unlocks(techs@[t], space_location_key(), n)),
            forall|n: Seq<char>| #[trigger]
                qt@.contains_key(n) <==> (exists|t: int|
                    0 <= t < i && is_available(techs@, milestones, techs@[t].base.name@)
                        && #[trigger] tech_unlocks(techs@[t], quality_key(), n)),
        decreases techs.len() - i,
    {
        let found = contains_string(accessible, &techs[i].base.name);
        proof {
            let nm = techs@[i as int].base.name@;
            if found {
                let a = choose|a: int| 0 <= a < accessible.len() && #[trigger] accessible@[a]@ == nm;
                assert(string_views(accessible@)[a] == nm);
                assert(string_views(accessible@).contains(nm));
            } else {
                if string_views(accessible@).contains(nm) {
                    let a = choose|a: int| 0 <= a < string_views(accessible@).len() && string_views(accessible@)[a] == nm;
                    assert(accessible@[a]@ == nm);
                }
            }
            assert(string_views(accessible@).contains(nm) == is_available(techs@, milestones, nm));
            assert(found == is_available(techs@, milestones, nm));
        }
        if found {
            note_tech_unlocks(&techs[i], recipes, &mut rt, &mut st, &mut qt);
        }
        i = i + 1;
    }
    (rt, st, qt)
}


/// Adds the recipes that are enabled from the start.
fn add_enabled_recipes(recipes: &Vec<RecipePrototype>, rt: &mut Dict<bool>)
    requires
        all_true(old(rt)@),
    ensures
        all_true(final(rt)@),
        forall|n: Seq<char>| #[trigger]
            final(rt)@.contains_key(n) <==> old(rt)@.contains_key(n) || enabled_recipe(recipes@, n),
{
    let ghost r0 = rt@;
    let mut j: usize = 0;
    while j < recipes.len()
        invariant
            j <= recipes.len(),
            all_true(rt@),
            forall|n: Seq<char>| #[trigger]
                rt@.contains_key(n) <==> r0.contains_key(n) || (exists|t: int|
                    0 <= t < j && #[trigger] recipes@[t].base.name@ == n && recipes@[t].enabled),
        decreases recipes.len() - j,
    {
        if recipes[j].enabled {
            rt.insert(recipes[j].base.name.clone(), true);
            assert(recipes@[j as int].base.name@ == recipes@[j as int].base.name@);
        }
        j = j + 1;
    }
}

/// Adds the items and the fluids among `results`.
fn insert_results(results: &Vec<RecipeResult>, it: &mut Dict<bool>, ft: &mut Dict<bool>)
    requires
        all_true(old(it)@),
        all_true(old(ft)@),
    ensures
        all_true(final(it)@),
        all_true(final(ft)@),
        forall|n: Seq<char>| #[trigger]
            final(it)@.contains_key(n) <==> old(it)@.contains_key(n) || gives(results@, item_key(), n),
        forall|n: Seq<char>| #[trigger]
            final(ft)@.contains_key(n) <==> old(ft)@.contains_key(n) || gives(results@, fluid_key(), n),
{
    let ghost i0 = it@;
    let ghost f0 = ft@;
    proof {
        lemma_keys_distinct();
    }
    let mut q: usize = 0;
    while q < results.len()
        invariant
            q <= results.len(),
            all_true(it@),
            all_true(ft@),
            item_key() != fluid_key(),
            forall|n: Seq<char>| #[trigger]
                it@.contains_key(n) <==> i0.contains_key(n) || (exists|t: int|
                    0 <= t < q && #[trigger] result_name(results@[t], item_key()) == Some(n)),
            forall|n: Seq<char>| #[trigger]
                ft@.contains_key(n) <==> f0.contains_key(n) || (exists|t: int|
                    0 <= t < q && #[trigger] result_name(results@[t], fluid_key()) == Some(n)),
        decreases results.len() - q,
    {
        let ghost r = results@[q as int];
        assert(result_name(r, item_key()) == result_name(results@[q as int], item_key()));
        assert(result_name(r, fluid_key()) == result_name(results@[q as int], fluid_key()));
        match &results[q] {
            RecipeResult::Item { name } => {
                it.insert(name.clone(), true);
            },
            RecipeResult::Fluid { name } => {
                ft.insert(name.clone(), true);
            },
        }
        q = q + 1;
    }
}

/// The items and fluids that visible recipes give, where `rt` lists the
/// recipes that may be used.
fn crafted_tables(
    data: &DataContext,
    rt: &Dict<bool>,
    Ghost(milestones): Ghost<Seq<(String, bool)>>,
) -> (r: (Dict<bool>, Dict<bool>))
    requires
        forall|n: Seq<char>| #[trigger] rt@.contains_key(n) <==> recipe_unlocked(*data, milestones, n),
    ensures
        all_true(r.0@),
        all_true(r.1@),
        forall|n: Seq<char>| #[trigger] r.0@.contains_key(n) <==> crafted(*data, milestones, item_key(), n),
        forall|n: Seq<char>| #[trigger] r.1@.contains_key(n) <==> crafted(*data, milestones, fluid_key(), n),
{
    let recipes = &data.recipes;
    let mut it: Dict<bool> = Dict::new();
    let mut ft: Dict<bool> = Dict::new();
    let mut j: usize = 0;
    while j < recipes.len()
        invariant
            j <= recipes.len(),
            recipes == &data.recipes,
            forall|n: Seq<char>| #[trigger] rt@.contains_key(n) <==> recipe_unlocked(*data, milestones, n),
            all_true(it@),
            all_true(ft@),
            forall|n: Seq<char>| #[trigger]
                it@.contains_key(n) <==> (exists|t: int|
                    0 <= t < j && !recipes@[t].base.hidden && recipe_unlocked(
                        *data,
                        milestones,
                        recipes@[t].base.name@,
                    ) && #[trigger] gives(recipes@[t].results@, item_key(), n)),
            forall|n: Seq<char>| #[trigger]
                ft@.contains_key(n) <==> (exists|t: int|
                    0 <= t < j && !recipes@[t].base.hidden && recipe_unlocked(
                        *data,
                        milestones,
                        recipes@[t].base.name@,
                    ) && #[trigger] gives(recipes@[t].results@, fluid_key(), n)),
        decreases recipes.len() - j,
    {
        if !recipes[j].base.hidden && rt.contains_key(recipes[j].base.name.as_str()) {
            insert_results(&recipes[j].results, &mut it, &mut ft);
        }
        j = j + 1;
    }
    (it, ft)
}

/// Adds the items and fluids that mining the resources gives.
fn add_mined(resources: &Vec<ResourcePrototype>, it: &mut Dict<bool>, ft: &mut Dict<bool>)
    requires
        all_true(old(it)@),
        all_true(old(ft)@),
    ensures
        all_true(final(it)@),
        all_true(final(ft)@),
        forall|n: Seq<char>| #[trigger]
            final(it)@.contains_key(n) <==> old(it)@.contains_key(n) || mined(resources@, item_key(), n),
        forall|n: Seq<char>| #[trigger]
            final(ft)@.contains_key(n) <==> old(ft)@.contains_key(n) || mined(resources@, fluid_key(), n),
{
    let ghost i0 = it@;
    let ghost f0 = ft@;
    proof {
        lemma_keys_distinct();
    }
    let mut j: usize = 0;
    while j < resources.len()
        invariant
            j <= resources.len(),
            all_true(it@),
            all_true(ft@),
            item_key() != fluid_key(),
            forall|n: Seq<char>| #[trigger]
                it@.contains_key(n) <==> i0.contains_key(n) || (exists|t: int|
                    0 <= t < j && #[trigger] mine_gives(resources@[t], item_key(), n)),
            forall|n: Seq<char>| #[trigger]
                ft@.contains_key(n) <==> f0.contains_key(n) || (exists|t: int|
                    0 <= t < j && #[trigger] mine_gives(resources@[t], fluid_key(), n)),
        decreases resources.len() - j,
    {
        let ghost res = resources@[j as int];
        let ghost ib = it@;
        let ghost fb = ft@;
        match &resources[j].base.minable {
            Some(m) => {
                insert_results(&m.results, it, ft);
                match &m.result {
                    Some(result) => {
                        it.insert(result.clone(), true);
                    },
                    None => {},
                }
            },
            None => {},
        }
        assert forall|n: Seq<char>| #[trigger]
            it@.contains_key(n) <==> ib.contains_key(n) || mine_gives(res, item_key(), n) by {}
        assert forall|n: Seq<char>| #[trigger]
            ft@.contains_key(n) <==> fb.contains_key(n) || mine_gives(res, fluid_key(), n) by {}
        assert forall|n: Seq<char>| #[trigger]
            it@.contains_key(n) <==> i0.contains_key(n) || (exists|t: int|
                0 <= t < j + 1 && #[trigger] mine_gives(resources@[t], item_key(), n)) by {
            if mine_gives(res, item_key(), n) {
                assert(mine_gives(resources@[j as int], item_key(), n));
            }
        }
        assert forall|n: Seq<char>| #[trigger]
            ft@.contains_key(n) <==> f0.contains_key(n) || (exists|t: int|
                0 <= t < j + 1 && #[trigger] mine_gives(resources@[t], fluid_key(), n)) by {
            if mine_gives(res, fluid_key(), n) {
                assert(mine_gives(resources@[j as int], fluid_key(), n));
            }
        }
        j = j + 1;
    }
}

/// The entities that obtainable items place, where `it` lists the
/// obtainable items.
fn placed_table(
    data: &DataContext,
    it: &Dict<bool>,
    Ghost(milestones): Ghost<Seq<(String, bool)>>,
) -> (et: Dict<bool>)
    requires
        forall|n: Seq<char>| #[trigger] it@.contains_key(n) <==> obtainable(*data, milestones, item_key(), n),
    ensures
        all_true(et@),
        forall|n: Seq<char>| #[trigger] et@.contains_key(n) <==> placed(*data, milestones, n),
{
    let items = &data.items;
    let mut et: Dict<bool> = Dict::new();
    let mut j: usize = 0;
    while j < items.len()
        invariant
            j <= items.len(),
            items == &data.items,
            forall|n: Seq<char>| #[trigger] it@.contains_key(n) <==> obtainable(*data, milestones, item_key(), n),
            all_true(et@),
            forall|n: Seq<char>| #[trigger]
                et@.contains_key(n) <==> (exists|t: int|
                    0 <= t < j && #[trigger] places(items@[t], n) && obtainable(
                        *data,
                        milestones,
                        item_key(),
                        items@[t].base.name@,
                    )),
        decreases items.len() - j,
    {
        match &items[j].place_result {
            Some(p) => {
                if it.contains_key(items[j].base.name.as_str()) {
                    et.insert(p.clone(), true);
                    assert(places(items@[j as int], p@));
                }
            },
            None => {},
        }
        j = j + 1;
    }
    et
}


/// The tables of all that the milestones leave unlocked; `accessible` names
/// the available technologies.
fn build_tables(
    data: &DataContext,
    accessible: &Vec<String>,
    Ghost(milestones): Ghost<Seq<(String, bool)>>,
) -> (tables: Dict<Dict<bool>>)
    requires
        forall|n: Seq<char>| #[trigger]
            string_views(accessible@).contains(n) <==> is_available(data.technologies@, milestones, n),
    ensures
        tables_hold(tables@, *data, milestones),
{
    let (mut rt, st, qt) = research_tables(&data.technologies, accessible, &data.recipes, Ghost(milestones));
    add_enabled_recipes(&data.recipes, &mut rt);
    let (mut it, mut ft) = crafted_tables(data, &rt, Ghost(milestones));
    add_mined(&data.resources, &mut it, &mut ft);
    let et = placed_table(data, &it, Ghost(milestones));
    proof {
        lemma_keys_distinct();
        reveal_strlit("recipe");
        reveal_strlit("space-location");
        reveal_strlit("quality");
        reveal_strlit("item");
        reveal_strlit("fluid");
        reveal_strlit("entity");
        assert("recipe"@ =~= recipe_key());
        assert("space-location"@ =~= space_location_key());
        assert("quality"@ =~= quality_key());
        assert("item"@ =~= item_key());
        assert("fluid"@ =~= fluid_key());
        assert("entity"@ =~= entity_key());
        assert(rt@.dom() =~= unlocked_names(*data, milestones, recipe_key()));
        assert(st@.dom() =~= unlocked_names(*data, milestones, space_location_key()));
        assert(qt@.dom() =~= unlocked_names(*data, milestones, quality_key()));
        assert(it@.dom() =~= unlocked_names(*data, milestones, item_key()));
        assert(ft@.dom() =~= unlocked_names(*data, milestones, fluid_key()));
        assert(et@.dom() =~= unlocked_names(*data, milestones, entity_key()));
    }
    let ghost views = seq![rt@, st@, qt@, it@, ft@, et@];
    let ghost keys = seq![recipe_key(), space_location_key(), quality_key(), item_key(), fluid_key(), entity_key()];
    let mut tables: Dict<Dict<bool>> = Dict::new();
    if !rt.is_empty() {
        tables.insert("recipe".to_string(), rt);
    }
    if !st.is_empty() {
        tables.insert("space-location".to_string(), st);
    }
    if !qt.is_empty() {
        tables.insert("quality".to_string(), qt);
    }
    if !it.is_empty() {
        tables.insert("item".to_string(), it);
    }
    if !ft.is_empty() {
        tables.insert("fluid".to_string(), ft);
    }
    if !et.is_empty() {
        tables.insert("entity".to_string(), et);
    }
    proof {
        assert forall|key: Seq<char>| #[trigger]
            tables@.contains_key(key) <==> !unlocked_names(*data, milestones, key).is_empty() by {
            if !keys.contains(key) {
                assert(unlocked_names(*data, milestones, key) =~= Set::empty());
            } else {
                let a = choose|a: int| 0 <= a < keys.len() && keys[a] == key;
                assert(views[a].dom() == unlocked_names(*data, milestones, key));
            }
        }
        assert forall|key: Seq<char>| #[trigger] tables@.contains_key(key) implies tables@[key]@.dom()
            == unlocked_names(*data, milestones, key) && all_true(tables@[key]@) by {
            let a = choose|a: int| 0 <= a < keys.len() && keys[a] == key;
            assert(tables@[key]@ == views[a]);
        }
    }
    tables
}


/// The highest quality level reached by climbing from the lowest through
/// levels that may be used, as a `u8` (wrapping past 255).
fn highest_open_quality(tables: &Dict<Dict<bool>>, qualities: &Vec<PrototypeBase>) -> (r: u8)
    ensures
        r == open_levels(tables@, qualities@, 1) as u8,
{
    proof {
        reveal_strlit("quality");
        assert("quality"@ =~= quality_key());
    }
    let mut max: u8 = 0;
    let mut i: usize = 1;
    let mut done = false;
    while !done && i < qualities.len()
        invariant
            1 <= i,
            i <= qualities.len() || i == 1,
            !done ==> open_levels(tables@, qualities@, 1) == (i - 1) + open_levels(tables@, qualities@, i as int),
            done ==> open_levels(tables@, qualities@, 1) == i - 1,
            max == ((i - 1) as u8),
            "quality"@ == quality_key(),
        decreases qualities.len() - i + if done { 0int } else { 1int },
    {
        let open = match tables.get("quality") {
            None => true,
            Some(t) => match t.get(qualities[i].name.as_str()) {
                Some(b) => *b,
                None => false,
            },
        };
        assert(open == quality_open(tables@, qualities@[i as int].name@));
        if open {
            max = i as u8;
            i = i + 1;
        } else {
            done = true;
        }
    }
    max
}

/// Recomputes what the milestones leave unlocked: the available
/// technologies, the tables of unlocked prototypes by category, and the
/// highest quality level that may be used. The other settings stay. The
/// locks of the milestones must not reach a cycle of prerequisites.
pub fn update_accessibles(user: &mut ProjectContext, data: &DataContext)
    requires
        names_distinct(data.technologies@),
        locks_end(data.technologies@, old(user).tech_milestones@),
    ensures
        string_views(final(user).accessible_technologies@).no_duplicates(),
        forall|n: Seq<char>| #[trigger]
            string_views(final(user).accessible_technologies@).contains(n) <==> is_available(
                data.technologies@,
                old(user).tech_milestones@,
                n,
            ),
        tables_hold(final(user).accessible_prototypes@, *data, old(user).tech_milestones@),
        final(user).max_quality_level == open_levels(final(user).accessible_prototypes@, data.qualities@, 1) as u8,
        final(user).time_scale == old(user).time_scale,
        final(user).tech_milestones == old(user).tech_milestones,
        final(user).saved == old(user).saved,
        final(user).selected_page == old(user).selected_page,
{
    let accessible = resolve_dependency(&data.technologies, &user.tech_milestones);
    let tables = build_tables(data, &accessible, Ghost(user.tech_milestones@));
    let max = highest_open_quality(&tables, &data.qualities);
    user.accessible_technologies = accessible;
    user.accessible_prototypes = tables;
    user.max_quality_level = max;
}

/// After an update, a prototype may be used exactly when nothing of its
/// category is unlocked or it is.
pub proof fn lemma_accessible_after_update(
    tables: Map<Seq<char>, Dict<bool>>,
    data: DataContext,
    milestones: Seq<(String, bool)>,
    key: Seq<char>,
    n: Seq<char>,
)
    requires
        tables_hold(tables, data, milestones),
    ensures
        prototype_accessible(tables, key, n) == (unlocked_names(data, milestones, key).is_empty()
            || is_unlocked(data, milestones, key, n)),
{
    if tables.contains_key(key) {
        assert(tables[key]@.contains_key(n) == unlocked_names(data, milestones, key).contains(n));
    }
}

/// Some technology is named `n`.
pub open spec fn tech_named(techs: Seq<TechnologyPrototype>, n: Seq<char>) -> bool {
    exists|k: int| 0 <= k < techs.len() && #[trigger] techs[k].base.name@ == n
}

/// The milestones that name a known technology, in their order.
pub open spec fn known_milestones(milestones: Seq<(String, bool)>, techs: Seq<TechnologyPrototype>) -> Seq<
    (String, bool),
>
    decreases milestones.len(),
{
    if milestones.len() == 0 {
        milestones
    } else {
        let prev = known_milestones(milestones.drop_last(), techs);
        if tech_named(techs, milestones.last().0@) {
            prev.push(milestones.last())
        } else {
            prev
        }
    }
}

fn find_tech(techs: &Vec<TechnologyPrototype>, n: &String) -> (r: bool)
    ensures
        r == tech_named(techs@, n@),
{
    let mut k: usize = 0;
    while k < techs.len()
        invariant
            k <= techs.len(),
            forall|t: int| 0 <= t < k ==> #[trigger] techs@[t].base.name@ != n@,
        decreases techs.len() - k,
    {
        if techs[k].base.name == *n {
            return true;
        }
        k = k + 1;
    }
    false
}

/// Brings a project read from disk up to date with the game data: drops
/// the milestones of technologies that no longer exist, keeping the order
/// of the rest, and recomputes what is unlocked. The locks of the kept
/// milestones must not reach a cycle of prerequisites.
pub fn refresh_after_load(proj: &mut ProjectContext, data: &DataContext)
    requires
        names_distinct(data.technologies@),
        locks_end(data.technologies@, known_milestones(old(proj).tech_milestones@, data.technologies@)),
    ensures
        final(proj).tech_milestones@ == known_milestones(old(proj).tech_milestones@, data.technologies@),
        string_views(final(proj).accessible_technologies@).no_duplicates(),
        forall|n: Seq<char>| #[trigger]
            string_views(final(proj).accessible_technologies@).contains(n) <==> is_available(
                data.technologies@,
                final(proj).tech_milestones@,
                n,
            ),
        tables_hold(final(proj).accessible_prototypes@, *data, final(proj).tech_milestones@),
        final(proj).max_quality_level == open_levels(final(proj).accessible_prototypes@, data.qualities@, 1) as u8,
        final(proj).time_scale == old(proj).time_scale,
        final(proj).saved == old(proj).saved,
        final(proj).selected_page == old(proj).selected_page,
{
    let mut kept: Vec<(String, bool)> = Vec::new();
    let mut i: usize = 0;
    while i < proj.tech_milestones.len()
        invariant
            i <= proj.tech_milestones.len(),
            proj.tech_milestones@ == old(proj).tech_milestones@,
            kept@ == known_milestones(proj.tech_milestones@.take(i as int), data.technologies@),
        decreases proj.tech_milestones.len() - i,
    {
        let m = &proj.tech_milestones[i];
        proof {
            let s = proj.tech_milestones@.take(i + 1);
            assert(s.drop_last() =~= proj.tech_milestones@.take(i as int));
            assert(s.last() == proj.tech_milestones@[i as int]);
        }
        if find_tech(&data.technologies, &m.0) {
            kept.push((m.0.clone(), m.1));
        }
        i = i + 1;
    }
    proof {
        assert(proj.tech_milestones@.take(i as int) =~= proj.tech_milestones@);
    }
    proj.tech_milestones = kept;
    update_accessibles(proj, data);
}

/// Dropping the milestones of unknown technologies a second time drops
/// nothing more.
pub proof fn lemma_known_milestones_idempotent(milestones: Seq<(String, bool)>, techs: Seq<TechnologyPrototype>)
    ensures
        known_milestones(known_milestones(milestones, techs), techs) == known_milestones(milestones, techs),
    decreases milestones.len(),
{
    if milestones.len() > 0 {
        let prev = known_milestones(milestones.drop_last(), techs);
        lemma_known_milestones_idempotent(milestones.drop_last(), techs);
        if tech_named(techs, milestones.last().0@) {
            let k = prev.push(milestones.last());
            assert(k.drop_last() =~= prev);
            assert(k.last() == milestones.last());
        }
    }
}

} // verus!
