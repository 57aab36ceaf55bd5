use vstd::prelude::*;

use crate::data::DataContext;
use crate::graph::{
    is_available, is_lock_chain, milestone_locked, node_name, node_needs, tech_locked, Modifier, TechnologyPrototype,
};
use crate::model::{RecipePrototype, RecipeResult};
use crate::user::ProjectContext;

verus! {

pub open spec fn tool_type() -> Seq<char> {
    seq!['t', 'o', 'o', 'l']
}

pub open spec fn rocket_silo_type() -> Seq<char> {
    seq!['r', 'o', 'c', 'k', 'e', 't', '-', 's', 'i', 'l', 'o']
}

/// Some item named `n` is a tool (a science pack).
pub open spec fn is_tool_item(data: DataContext, n: Seq<char>) -> bool {
    exists|i: int|
        0 <= i < data.items.len() && #[trigger] data.items@[i].base.name@ == n
            && data.items@[i].base.prototype_type@ == tool_type()
}

/// Some entity named `n` is a rocket silo.
pub open spec fn is_silo_entity(data: DataContext, n: Seq<char>) -> bool {
    exists|e: int|
        0 <= e < data.entities.len() && #[trigger] data.entities@[e].base.name@ == n
            && data.entities@[e].base.prototype_type@ == rocket_silo_type()
}

/// An item marks a technology as a milestone when it is a tool, places a
/// rocket silo, or gives a tool when launched.
pub open spec fn item_marks(data: DataContext, i: int) -> bool {
    let item = data.items@[i];
    ||| item.base.prototype_type@ == tool_type()
    ||| item.place_result is Some && is_silo_entity(data, item.place_result->0@)
    ||| exists|l: int|
        0 <= l < item.rocket_launch_products.len() && #[trigger] is_tool_item(
            data,
            item.rocket_launch_products@[l]@,
        )
}

/// Some item named `n` marks a milestone.
pub open spec fn item_named_marks(data: DataContext, n: Seq<char>) -> bool {
    exists|i: int| 0 <= i < data.items.len() && #[trigger] data.items@[i].base.name@ == n && item_marks(data, i)
}

/// One of the items that `recipe` gives marks a milestone.
pub open spec fn recipe_marks(data: DataContext, recipe: RecipePrototype) -> bool {
    exists|q: int|
        0 <= q < recipe.results.len() && #[trigger] recipe.results@[q] is Item && item_named_marks(
            data,
            recipe.results@[q]->Item_name@,
        )
}

/// Researching `m` makes its technology a milestone: it unlocks a quality,
/// a space location, or a recipe of a marking item.
pub open spec fn effect_marks(data: DataContext, m: Modifier) -> bool {
    match m {
        Modifier::UnlockQuality { .. } => true,
        Modifier::UnlockSpaceLocation { .. } => true,
        Modifier::UnlockRecipe { recipe } => exists|j: int|
            0 <= j < data.recipes.len() && #[trigger] data.recipes@[j].base.name@ == recipe@ && recipe_marks(
                data,
                data.recipes@[j],
            ),
        Modifier::Other => false,
    }
}

pub open spec fn tech_marks(data: DataContext, tech: TechnologyPrototype) -> bool {
    exists|k: int| 0 <= k < tech.effects.len() && #[trigger] effect_marks(data, tech.effects@[k])
}

/// The milestones `(name, true)` of the marking technologies among the
/// first `upto`, in their order.
pub open spec fn default_milestones(data: DataContext, upto: int) -> Seq<(String, bool)>
    decreases upto,
{
    if upto <= 0 {
        seq![]
    } else {
        let prev = default_milestones(data, upto - 1);
        let tech = data.technologies@[upto - 1];
        if tech_marks(data, tech) {
            prev.push((tech.base.name, true))
        } else {
            prev
        }
    }
}

fn is_tool(data: &DataContext, n: &String) -> (r: bool)
    ensures
        r == is_tool_item(*data, n@),
{
    let tool = "tool".to_string();
    proof {
        reveal_strlit("tool");
        assert(tool@ =~= tool_type());
    }
    let mut i: usize = 0;
    while i < data.items.len()
        invariant
            i <= data.items.len(),
            tool@ == tool_type(),
            forall|t: int|
                0 <= t < i ==> !(#[trigger] data.items@[t].base.name@ == n@ && data.items@[t].base.prototype_type@
                    == tool_type()),
        decreases data.items.len() - i,
    {
        if data.items[i].base.name == *n && data.items[i].base.prototype_type == tool {
            return true;
        }
        i = i + 1;
    }
    false
}

fn is_silo(data: &DataContext, n: &String) -> (r: bool)
    ensures
        r == is_silo_entity(*data, n@),
{
    let silo = "rocket-silo".to_string();
    proof {
        reveal_strlit("rocket-silo");
        assert(silo@ =~= rocket_silo_type());
    }
    let mut e: usize = 0;
    while e < data.entities.len()
        invariant
            e <= data.entities.len(),
            silo@ == rocket_silo_type(),
            forall|t: int|
                0 <= t < e ==> !(#[trigger] data.entities@[t].base.name@ == n@
                    && data.entities@[t].base.prototype_type@ == rocket_silo_type()),
        decreases data.entities.len() - e,
    {
        if data.entities[e].base.name == *n && data.entities[e].base.prototype_type == silo {
            return true;
        }
        e = e + 1;
    }
    false
}

fn item_at_marks(data: &DataContext, i: usize) -> (r: bool)
    requires
        i < data.items.len(),
    ensures
        r == item_marks(*data, i as int),
{
    let item = &data.items[i];
    let tool = "tool".to_string();
    proof {
        reveal_strlit("tool");
        assert(tool@ =~= tool_type());
    }
    if item.base.prototype_type == tool {
        return true;
    }
    match &item.place_result {
        Some(p) => {
            if is_silo(data, p) {
                return true;
            }
        },
        None => {},
    }
    let mut l: usize = 0;
    while l < item.rocket_launch_products.len()
        invariant
            l <= item.rocket_launch_products.len(),
            item == &data.items@[i as int],
            forall|t: int|
                0 <= t < l ==> !#[trigger] is_tool_item(*data, item.rocket_launch_products@[t]@),
        decreases item.rocket_launch_products.len() - l,
    {
        if is_tool(data, &item.rocket_launch_products[l]) {
            return true;
        }
        l = l + 1;
    }
    false
}

fn item_named_marks_exec(data: &DataContext, n: &String) -> (r: bool)
    ensures
        r == item_named_marks(*data, n@),
{
    let mut i: usize = 0;
    while i < data.items.len()
        invariant
            i <= data.items.len(),
            forall|t: int|
                0 <= t < i ==> !(#[trigger] data.items@[t].base.name@ == n@ && item_marks(*data, t)),
        decreases data.items.len() - i,
    {
        if data.items[i].base.name == *n && item_at_marks(data, i) {
            return true;
        }
        i = i + 1;
    }
    false
}

fn recipe_marks_exec(data: &DataContext, recipe: &RecipePrototype) -> (r: bool)
    ensures
        r == recipe_marks(*data, *recipe),
{
    let mut q: usize = 0;
    while q < recipe.results.len()
        invariant
            q <= recipe.results.len(),
            forall|t: int|
                0 <= t < q ==> !(#[trigger] recipe.results@[t] is Item && item_named_marks(
                    *data,
                    recipe.results@[t]->Item_name@,
                )),
        decreases recipe.results.len() - q,
    {
        match &recipe.results[q] {
            RecipeResult::Item { name } => {
                if item_named_marks_exec(data, name) {
                    return true;
                }
            },
            RecipeResult::Fluid { .. } => {},
        }
        q = q + 1;
    }
    false
}

fn effect_marks_exec(data: &DataContext, m: &Modifier) -> (r: bool)
    ensures
        r == effect_marks(*data, *m),
{
    match m {
        Modifier::UnlockQuality { .. } => true,
        Modifier::UnlockSpaceLocation { .. } => true,
        Modifier::UnlockRecipe { recipe } => {
            let mut j: usize = 0;
            while j < data.recipes.len()
                invariant
                    j <= data.recipes.len(),
                    *m == (Modifier::UnlockRecipe { recipe: *recipe }),
                    forall|t: int|
                        0 <= t < j ==> !(#[trigger] data.recipes@[t].base.name@ == recipe@ && recipe_marks(
                            *data,
                            data.recipes@[t],
                        )),
                decreases data.recipes.len() - j,
            {
                if data.recipes[j].base.name == *recipe && recipe_marks_exec(data, &data.recipes[j]) {
                    assert(data.recipes@[j as int].base.name@ == recipe@);
                    return true;
                }
                j = j + 1;
            }
            false
        },
        Modifier::Other => false,
    }
}

fn tech_marks_exec(data: &DataContext, tech: &TechnologyPrototype) -> (r: bool)
    ensures
        r == tech_marks(*data, *tech),
{
    let mut k: usize = 0;
    while k < tech.effects.len()
        invariant
            k <= tech.effects.len(),
            forall|t: int| 0 <= t < k ==> !#[trigger] effect_marks(*data, tech.effects@[t]),
        decreases tech.effects.len() - k,
    {
        if effect_marks_exec(data, &tech.effects[k]) {
            return true;
        }
        k = k + 1;
    }
    false
}

/// Adds a milestone `(name, true)` for each technology that matters for
/// progress: one that unlocks a quality or a space location, or a recipe of
/// an item that is a tool, places a rocket silo, or gives a tool when
/// launched. The milestones follow the technologies' order.
pub fn set_default_milestones(proj: &mut ProjectContext, data: &DataContext)
    ensures
        final(proj).tech_milestones@ == old(proj).tech_milestones@ + default_milestones(
            *data,
            data.technologies.len() as int,
        ),
        final(proj).accessible_technologies == old(proj).accessible_technologies,
        final(proj).accessible_prototypes == old(proj).accessible_prototypes,
        final(proj).max_quality_level == old(proj).max_quality_level,
        final(proj).time_scale == old(proj).time_scale,
        final(proj).saved == old(proj).saved,
        final(proj).selected_page == old(proj).selected_page,
{
    let ghost m0 = proj.tech_milestones@;
    let mut i: usize = 0;
    while i < data.technologies.len()
        invariant
            i <= data.technologies.len(),
            proj.tech_milestones@ == m0 + default_milestones(*data, i as int),
            proj.accessible_technologies == old(proj).accessible_technologies,
            proj.accessible_prototypes == old(proj).accessible_prototypes,
            proj.max_quality_level == old(proj).max_quality_level,
            proj.time_scale == old(proj).time_scale,
            proj.saved == old(proj).saved,
            proj.selected_page == old(proj).selected_page,
        decreases data.technologies.len() - i,
    {
        let tech = &data.technologies[i];
        if tech_marks_exec(data, tech) {
            proj.tech_milestones.push((tech.base.name.clone(), true));
            assert(proj.tech_milestones@ =~= m0 + default_milestones(*data, i + 1));
        } else {
            assert(proj.tech_milestones@ =~= m0 + default_milestones(*data, i + 1));
        }
        i = i + 1;
    }
}

/// Every default milestone holds nothing back.
pub proof fn lemma_default_milestones_unlock(data: DataContext, upto: int)
    ensures
        forall|i: int| 0 <= i < default_milestones(data, upto).len() ==> #[trigger] default_milestones(data, upto)[i].1,
    decreases upto,
{
    if upto > 0 {
        lemma_default_milestones_unlock(data, upto - 1);
        let prev = default_milestones(data, upto - 1);
        let d = default_milestones(data, upto);
        assert forall|i: int| 0 <= i < d.len() implies #[trigger] d[i].1 by {
            if i < prev.len() {
                assert(d[i] == prev[i]);
            }
        }
    }
}

/// Milestones `(name, true)` hold nothing back: added to any milestones,
/// they leave every technology exactly as available as before.
pub proof fn lemma_unlocking_milestones_change_nothing(
    techs: Seq<TechnologyPrototype>,
    milestones: Seq<(String, bool)>,
    extra: Seq<(String, bool)>,
    n: Seq<char>,
)
    requires
        forall|i: int| 0 <= i < extra.len() ==> #[trigger] extra[i].1,
    ensures
        is_available(techs, milestones + extra, n) == is_available(techs, milestones, n),
{
    let all = milestones + extra;
    assert forall|p: Seq<char>| #[trigger] milestone_locked(all, p) == milestone_locked(milestones, p) by {
        if milestone_locked(all, p) {
            let i = choose|i: int| 0 <= i < all.len() && #[trigger] all[i].0@ == p && !all[i].1;
            if i >= milestones.len() {
                assert(extra[i - milestones.len()].1);
            } else {
                assert(milestones[i].0@ == p);
            }
        }
        if milestone_locked(milestones, p) {
            let i = choose|i: int| 0 <= i < milestones.len() && #[trigger] milestones[i].0@ == p && !milestones[i].1;
            assert(all[i].0@ == p);
        }
    }
    assert forall|chain: Seq<int>| #[trigger] is_lock_chain(techs, all, chain) == is_lock_chain(techs, milestones, chain) by {
        if is_lock_chain(techs, all, chain) {
            let p = choose|p: Seq<char>| node_needs(techs, chain[0], p) && #[trigger] milestone_locked(all, p);
            assert(milestone_locked(milestones, p));
        }
        if is_lock_chain(techs, milestones, chain) {
            let p = choose|p: Seq<char>| node_needs(techs, chain[0], p) && #[trigger] milestone_locked(milestones, p);
            assert(milestone_locked(all, p));
        }
    }
    assert forall|k: int| #[trigger] tech_locked(techs, all, k) == tech_locked(techs, milestones, k) by {
        if tech_locked(techs, all, k) && !milestone_locked(all, node_name(techs, k)) {
            let chain = choose|chain: Seq<int>| #[trigger] is_lock_chain(techs, all, chain) && chain.last() == k;
            assert(is_lock_chain(techs, milestones, chain));
        }
        if tech_locked(techs, milestones, k) && !milestone_locked(milestones, node_name(techs, k)) {
            let chain = choose|chain: Seq<int>| #[trigger] is_lock_chain(techs, milestones, chain) && chain.last() == k;
            assert(is_lock_chain(techs, all, chain));
        }
    }
}

/// Setting the default milestones changes nothing of what is available.
pub proof fn lemma_default_milestones_keep_availability(
    data: DataContext,
    milestones: Seq<(String, bool)>,
    n: Seq<char>,
)
    ensures
        is_available(
            data.technologies@,
            milestones + default_milestones(data, data.technologies.len() as int),
            n,
        ) == is_available(data.technologies@, milestones, n),
{
    let d = default_milestones(data, data.technologies.len() as int);
    lemma_default_milestones_unlock(data, data.technologies.len() as int);
    lemma_unlocking_milestones_change_nothing(data.technologies@, milestones, d, n);
}

proof fn lemma_marking_tech_listed(data: DataContext, upto: int, k: int)
    requires
        0 <= k < upto <= data.technologies.len(),
        tech_marks(data, data.technologies@[k]),
    ensures
        default_milestones(data, upto).contains((data.technologies@[k].base.name, true)),
    decreases upto,
{
    let prev = default_milestones(data, upto - 1);
    let cur = default_milestones(data, upto);
    if k == upto - 1 {
        assert(cur[cur.len() - 1] == (data.technologies@[k].base.name, true));
    } else {
        lemma_marking_tech_listed(data, upto - 1, k);
        let t = choose|t: int| 0 <= t < prev.len() && prev[t] == (data.technologies@[k].base.name, true);
        if tech_marks(data, data.technologies@[upto - 1]) {
            assert(cur[t] == prev[t]);
        }
    }
}

proof fn lemma_recipe_item_marks_tech(data: DataContext, k: int, e: int, j: int, q: int, i: int)
    requires
        0 <= k < data.technologies.len(),
        0 <= e < data.technologies@[k].effects.len(),
        data.technologies@[k].effects@[e] is UnlockRecipe,
        0 <= j < data.recipes.len(),
        data.recipes@[j].base.name@ == data.technologies@[k].effects@[e]->recipe@,
        0 <= q < data.recipes@[j].results.len(),
        data.recipes@[j].results@[q] is Item,
        0 <= i < data.items.len(),
        data.items@[i].base.name@ == data.recipes@[j].results@[q]->Item_name@,
        item_marks(data, i),
    ensures
        default_milestones(data, data.technologies.len() as int).contains(
            (data.technologies@[k].base.name, true),
        ),
{
    let recipe = data.recipes@[j];
    assert(item_named_marks(data, recipe.results@[q]->Item_name@));
    assert(recipe_marks(data, recipe));
    assert(effect_marks(data, data.technologies@[k].effects@[e]));
    assert(tech_marks(data, data.technologies@[k]));
    lemma_marking_tech_listed(data, data.technologies.len() as int, k);
}

/// A technology that unlocks a recipe giving, among its products at any
/// place, an item of type `"tool"` (a science pack) gets a default
/// milestone `(name, true)`.
pub proof fn lemma_science_pack_recipe_makes_milestone(data: DataContext, k: int, e: int, j: int, q: int, i: int)
    requires
        0 <= k < data.technologies.len(),
        0 <= e < data.technologies@[k].effects.len(),
        data.technologies@[k].effects@[e] is UnlockRecipe,
        0 <= j < data.recipes.len(),
        data.recipes@[j].base.name@ == data.technologies@[k].effects@[e]->recipe@,
        0 <= q < data.recipes@[j].results.len(),
        data.recipes@[j].results@[q] is Item,
        0 <= i < data.items.len(),
        data.items@[i].base.name@ == data.recipes@[j].results@[q]->Item_name@,
        data.items@[i].base.prototype_type@ == seq!['t', 'o', 'o', 'l'],
    ensures
        default_milestones(data, data.technologies.len() as int).contains(
            (data.technologies@[k].base.name, true),
        ),
{
    lemma_recipe_item_marks_tech(data, k, e, j, q, i);
}

/// A technology that unlocks a recipe giving, among its products at any
/// place, an item that places a rocket silo gets a default milestone.
pub proof fn lemma_silo_recipe_makes_milestone(
    data: DataContext,
    k: int,
    e: int,
    j: int,
    q: int,
    i: int,
    x: int,
)
    requires
        0 <= k < data.technologies.len(),
        0 <= e < data.technologies@[k].effects.len(),
        data.technologies@[k].effects@[e] is UnlockRecipe,
        0 <= j < data.recipes.len(),
        data.recipes@[j].base.name@ == data.technologies@[k].effects@[e]->recipe@,
        0 <= q < data.recipes@[j].results.len(),
        data.recipes@[j].results@[q] is Item,
        0 <= i < data.items.len(),
        data.items@[i].base.name@ == data.recipes@[j].results@[q]->Item_name@,
        data.items@[i].place_result is Some,
        0 <= x < data.entities.len(),
        data.entities@[x].base.name@ == data.items@[i].place_result->0@,
        data.entities@[x].base.prototype_type@ == seq!['r', 'o', 'c', 'k', 'e', 't', '-', 's', 'i', 'l', 'o'],
    ensures
        default_milestones(data, data.technologies.len() as int).contains(
            (data.technologies@[k].base.name, true),
        ),
{
    assert(is_silo_entity(data, data.items@[i].place_result->0@));
    lemma_recipe_item_marks_tech(data, k, e, j, q, i);
}

/// A technology that unlocks a recipe giving, among its products at any
/// place, an item whose rocket launch gives a science pack gets a default
/// milestone.
pub proof fn lemma_launch_recipe_makes_milestone(
    data: DataContext,
    k: int,
    e: int,
    j: int,
    q: int,
    i: int,
    l: int,
    t: int,
)
    requires
        0 <= k < data.technologies.len(),
        0 <= e < data.technologies@[k].effects.len(),
        data.technologies@[k].effects@[e] is UnlockRecipe,
        0 <= j < data.recipes.len(),
        data.recipes@[j].base.name@ == data.technologies@[k].effects@[e]->recipe@,
        0 <= q < data.recipes@[j].results.len(),
        data.recipes@[j].results@[q] is Item,
        0 <= i < data.items.len(),
        data.items@[i].base.name@ == data.recipes@[j].results@[q]->Item_name@,
        0 <= l < data.items@[i].rocket_launch_products.len(),
        0 <= t < data.items.len(),
        data.items@[t].base.name@ == data.items@[i].rocket_launch_products@[l]@,
        data.items@[t].base.prototype_type@ == seq!['t', 'o', 'o', 'l'],
    ensures
        default_milestones(data, data.technologies.len() as int).contains(
            (data.technologies@[k].base.name, true),
        ),
{
    assert(is_tool_item(data, data.items@[i].rocket_launch_products@[l]@));
    lemma_recipe_item_marks_tech(data, k, e, j, q, i);
}

/// A technology that unlocks a quality or a space location gets a default
/// milestone.
pub proof fn lemma_quality_or_location_makes_milestone(data: DataContext, k: int, e: int)
    requires
        0 <= k < data.technologies.len(),
        0 <= e < data.technologies@[k].effects.len(),
        data.technologies@[k].effects@[e] is UnlockQuality || data.technologies@[k].effects@[e] is UnlockSpaceLocation,
    ensures
        default_milestones(data, data.technologies.len() as int).contains(
            (data.technologies@[k].base.name, true),
        ),
{
    assert(effect_marks(data, data.technologies@[k].effects@[e]));
    lemma_marking_tech_listed(data, data.technologies.len() as int, k);
}

} // verus!
