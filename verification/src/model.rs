use vstd::prelude::*;

use crate::common::{HasPrototypeBase, PrototypeBase};
use crate::effect::{allowed, kept_in, EffectType, EffectTypeLimitation, flag_effect};
use crate::text::string_views;

verus! {

/// What a recipe or a mine gives, by kind and name.
#[derive(Debug, Clone)]
pub enum RecipeResult {
    Item { name: String },
    Fluid { name: String },
}

/// A seed's plant.
#[derive(Debug, Clone)]
pub struct PlantProperty {
    pub plant_result: String,
}

/// The tile that an item places.
#[derive(Debug, Clone)]
pub struct PlaceAsTileProperty {
    pub result: String,
}

/// The parts of a fluid prototype that naming and ordering read.
#[derive(Debug, Clone, Default)]
pub struct FluidPrototype {
    pub base: PrototypeBase,
}

impl HasPrototypeBase for FluidPrototype {
    open spec fn prototype_base(&self) -> PrototypeBase {
        self.base
    }

    fn base(&self) -> (b: &PrototypeBase) {
        &self.base
    }
}

/// `p` with another base.
pub open spec fn recipe_with_base(p: RecipePrototype, b: PrototypeBase) -> RecipePrototype {
    RecipePrototype { base: b, ..p }
}

/// The parts of an item prototype that naming, ordering and unlocking read.
#[derive(Debug, Clone, Default)]
pub struct ItemPrototype {
    pub base: PrototypeBase,
    pub plant: Option<PlantProperty>,
    pub place_as_tile: Option<PlaceAsTileProperty>,
    /// The entity that the item places.
    pub place_result: Option<String>,
    /// Names of what launching the item gives.
    pub rocket_launch_products: Vec<String>,
}

impl HasPrototypeBase for ItemPrototype {
    open spec fn prototype_base(&self) -> PrototypeBase {
        self.base
    }

    fn base(&self) -> (b: &PrototypeBase) {
        &self.base
    }
}

/// What mining an entity gives.
#[derive(Debug, Clone, Default)]
pub struct Minable {
    pub result: Option<String>,
    pub results: Vec<RecipeResult>,
}

/// The parts of an entity prototype that naming, ordering and unlocking read.
#[derive(Debug, Clone, Default)]
pub struct EntityPrototype {
    pub base: PrototypeBase,
    pub minable: Option<Minable>,
    /// How map generation places it, if it does.
    pub autoplace: Option<AutoplaceSpecification>,
}

/// The parts of a tile prototype that map generation reads.
#[derive(Debug, Clone, Default)]
pub struct TilePrototype {
    pub base: PrototypeBase,
    pub autoplace: Option<AutoplaceSpecification>,
    /// The fluid that can be pumped from the tile.
    pub fluid: Option<String>,
}

/// How map generation places a prototype: under the named control.
#[derive(Debug, Clone, Default)]
pub struct AutoplaceSpecification {
    pub control: String,
}

impl HasPrototypeBase for EntityPrototype {
    open spec fn prototype_base(&self) -> PrototypeBase {
        self.base
    }

    fn base(&self) -> (b: &PrototypeBase) {
        &self.base
    }
}

/// The parts of a recipe prototype that ordering, unlocking and machine
/// choice read.
#[derive(Debug, Clone, Default)]
pub struct RecipePrototype {
    pub base: PrototypeBase,
    pub category: Option<String>,
    pub additional_categories: Vec<String>,
    pub results: Vec<RecipeResult>,
    pub main_product: Option<String>,
    pub allowed_module_categories: Option<Vec<String>>,
    /// Available from the start.
    pub enabled: bool,
    pub allow_consumption: bool,
    pub allow_speed: bool,
    pub allow_productivity: bool,
    pub allow_pollution: bool,
    pub allow_quality: bool,
}

impl HasPrototypeBase for RecipePrototype {
    open spec fn prototype_base(&self) -> PrototypeBase {
        self.base
    }

    fn base(&self) -> (b: &PrototypeBase) {
        &self.base
    }
}

/// The parts of a crafting machine prototype that machine choice reads.
#[derive(Debug, Default)]
pub struct CraftingMachinePrototype {
    pub base: PrototypeBase,
    pub crafting_categories: Vec<String>,
    pub allowed_effects: Option<EffectTypeLimitation>,
    pub allowed_module_categories: Option<Vec<String>>,
    pub fixed_recipe: Option<String>,
    pub fixed_quality: Option<String>,
}

impl HasPrototypeBase for CraftingMachinePrototype {
    open spec fn prototype_base(&self) -> PrototypeBase {
        self.base
    }

    fn base(&self) -> (b: &PrototypeBase) {
        &self.base
    }
}

/// A resource: its entity base, its category and whether it never runs out.
#[derive(Debug, Clone, Default)]
pub struct ResourcePrototype {
    pub base: EntityPrototype,
    pub category: Option<String>,
    pub infinite: bool,
}

impl HasPrototypeBase for ResourcePrototype {
    open spec fn prototype_base(&self) -> PrototypeBase {
        self.base.base
    }

    fn base(&self) -> (b: &PrototypeBase) {
        &self.base.base
    }
}

/// The parts of a mining drill prototype that machine choice reads.
#[derive(Debug, Default)]
pub struct MiningDrillPrototype {
    pub base: PrototypeBase,
    pub resource_categories: Vec<String>,
    pub allowed_effects: Option<EffectTypeLimitation>,
    pub allowed_module_categories: Option<Vec<String>>,
    pub uses_force_mining_productivity_bonus: bool,
}

impl HasPrototypeBase for MiningDrillPrototype {
    open spec fn prototype_base(&self) -> PrototypeBase {
        self.base
    }

    fn base(&self) -> (b: &PrototypeBase) {
        &self.base
    }
}

pub open spec fn contains_name(v: Seq<String>, n: Seq<char>) -> bool {
    exists|i: int| 0 <= i < v.len() && #[trigger] v[i]@ == n
}

pub(crate) fn vec_contains(v: &Vec<String>, n: &String) -> (r: bool)
    ensures
        r == contains_name(v@, n@),
{
    let mut i: usize = 0;
    while i < v.len()
        invariant
            i <= v.len(),
            forall|j: int| 0 <= j < i ==> #[trigger] v@[j]@ != n@,
        decreases v.len() - i,
    {
        if v[i] == *n {
            return true;
        }
        i = i + 1;
    }
    false
}

pub open spec fn crafting_name() -> Seq<char> {
    seq!['c', 'r', 'a', 'f', 't', 'i', 'n', 'g']
}

pub open spec fn basic_solid_name() -> Seq<char> {
    seq!['b', 'a', 's', 'i', 'c', '-', 's', 'o', 'l', 'i', 'd']
}

/// The recipe's category, `"crafting"` when it names none.
pub open spec fn recipe_category(recipe: RecipePrototype) -> Seq<char> {
    match recipe.category {
        Some(c) => c@,
        None => crafting_name(),
    }
}

/// A machine can make a recipe when it crafts the recipe's category or
/// one of its additional categories.
pub open spec fn fits_recipe(crafter: CraftingMachinePrototype, recipe: RecipePrototype) -> bool {
    contains_name(crafter.crafting_categories@, recipe_category(recipe)) || exists|i: int|
        0 <= i < recipe.additional_categories.len() && contains_name(
            crafter.crafting_categories@,
            #[trigger] recipe.additional_categories@[i]@,
        )
}

/// Whether `crafter` can make `recipe`.
pub fn machine_fits_for_recipe(crafter: &CraftingMachinePrototype, recipe: &RecipePrototype) -> (r: bool)
    ensures
        r == fits_recipe(*crafter, *recipe),
{
    let category = match &recipe.category {
        Some(c) => c.clone(),
        None => {
            let c = "crafting".to_string();
            proof {
                reveal_strlit("crafting");
                assert(c@ =~= crafting_name());
            }
            c
        },
    };
    if vec_contains(&crafter.crafting_categories, &category) {
        return true;
    }
    let mut i: usize = 0;
    while i < recipe.additional_categories.len()
        invariant
            i <= recipe.additional_categories.len(),
            forall|j: int|
                0 <= j < i ==> !contains_name(
                    crafter.crafting_categories@,
                    #[trigger] recipe.additional_categories@[j]@,
                ),
        decreases recipe.additional_categories.len() - i,
    {
        if vec_contains(&crafter.crafting_categories, &recipe.additional_categories[i]) {
            return true;
        }
        i = i + 1;
    }
    false
}

/// The resource's category, `"basic-solid"` when it names none.
pub open spec fn resource_category(resource: ResourcePrototype) -> Seq<char> {
    match resource.category {
        Some(c) => c@,
        None => basic_solid_name(),
    }
}

/// Whether `miner` can mine `resource`: it mines the resource's category.
pub fn machine_fits_for_resource(miner: &MiningDrillPrototype, resource: &ResourcePrototype) -> (r: bool)
    ensures
        r == contains_name(miner.resource_categories@, resource_category(*resource)),
{
    let category = match &resource.category {
        Some(c) => c.clone(),
        None => {
            let c = "basic-solid".to_string();
            proof {
                reveal_strlit("basic-solid");
                assert(c@ =~= basic_solid_name());
            }
            c
        },
    };
    vec_contains(&miner.resource_categories, &category)
}

pub open spec fn names_of(v: Option<Vec<String>>) -> Option<Seq<Seq<char>>> {
    match v {
        Some(x) => Some(string_views(x@)),
        None => None,
    }
}

/// The module categories allowed by both sides: a missing list allows
/// all; two lists are joined, the machine's first.
pub open spec fn joined_categories(
    crafter: Option<Seq<Seq<char>>>,
    recipe: Option<Seq<Seq<char>>>,
) -> Option<Seq<Seq<char>>> {
    match (crafter, recipe) {
        (None, None) => None,
        (None, Some(b)) => Some(b),
        (Some(a), None) => Some(a),
        (Some(a), Some(b)) => Some(a + b),
    }
}

fn clone_names(v: &Vec<String>) -> (r: Vec<String>)
    ensures
        string_views(r@) == string_views(v@),
{
    let mut r: Vec<String> = Vec::new();
    let mut i: usize = 0;
    while i < v.len()
        invariant
            i <= v.len(),
            r.len() == i,
            forall|j: int| 0 <= j < i ==> #[trigger] r@[j]@ == v@[j]@,
        decreases v.len() - i,
    {
        r.push(v[i].clone());
        i = i + 1;
    }
    proof {
        assert forall|j: int| 0 <= j < v.len() implies #[trigger] string_views(r@)[j] == string_views(v@)[j] by {
            assert(r@[j]@ == v@[j]@);
        }
        assert(string_views(r@) =~= string_views(v@));
    }
    r
}

/// The module effects and categories that a machine allows for a recipe:
/// the effects that the recipe allows and the machine lets through (none
/// when the machine names no list), and the joined category lists.
pub fn collect_module_limitations(
    crafter: &CraftingMachinePrototype,
    recipe: &RecipePrototype,
) -> (r: (EffectTypeLimitation, Option<Vec<String>>))
    ensures
        r.0 is Multiple,
        allowed(r.0) == kept_in(
            flag_effect(recipe.allow_consumption, EffectType::Consumption) + flag_effect(
                recipe.allow_speed,
                EffectType::Speed,
            ) + flag_effect(recipe.allow_productivity, EffectType::Productivity) + flag_effect(
                recipe.allow_pollution,
                EffectType::Pollution,
            ) + flag_effect(recipe.allow_quality, EffectType::Quality),
            match crafter.allowed_effects {
                Some(l) => allowed(l),
                None => Seq::empty(),
            },
        ),
        names_of(r.1) == joined_categories(
            names_of(crafter.allowed_module_categories),
            names_of(recipe.allowed_module_categories),
        ),
{
    let wanted = EffectTypeLimitation::new(
        recipe.allow_consumption,
        recipe.allow_speed,
        recipe.allow_productivity,
        recipe.allow_pollution,
        recipe.allow_quality,
    );
    let allowed_effects = match &crafter.allowed_effects {
        Some(l) => wanted.intersect(l),
        None => wanted.intersect(&EffectTypeLimitation::default()),
    };
    let categories = match (&crafter.allowed_module_categories, &recipe.allowed_module_categories) {
        (None, None) => None,
        (None, Some(b)) => Some(clone_names(b)),
        (Some(a), None) => Some(clone_names(a)),
        (Some(a), Some(b)) => {
            let mut joined = clone_names(a);
            let mut rest = clone_names(b);
            let ghost ja = joined@;
            let ghost rb = rest@;
            joined.append(&mut rest);
            proof {
                assert(joined@ == ja + rb);
                assert(string_views(joined@) =~= string_views(ja) + string_views(rb));
            }
            Some(joined)
        },
    };
    (allowed_effects, categories)
}

/// A machine that crafts a recipe's own category (`"crafting"` when the
/// recipe names none) can make the recipe, whatever additional categories
/// the recipe lists.
pub proof fn lemma_own_category_fits(crafter: CraftingMachinePrototype, recipe: RecipePrototype, i: int)
    requires
        0 <= i < crafter.crafting_categories.len(),
        match recipe.category {
            Some(c) => crafter.crafting_categories@[i]@ == c@,
            None => crafter.crafting_categories@[i]@ == seq!['c', 'r', 'a', 'f', 't', 'i', 'n', 'g'],
        },
    ensures
        fits_recipe(crafter, recipe),
{
    assert(crafter.crafting_categories@[i]@ == recipe_category(recipe));
}

/// A machine that crafts one of a recipe's additional categories can make
/// the recipe.
pub proof fn lemma_additional_category_fits(
    crafter: CraftingMachinePrototype,
    recipe: RecipePrototype,
    i: int,
    j: int,
)
    requires
        0 <= i < crafter.crafting_categories.len(),
        0 <= j < recipe.additional_categories.len(),
        crafter.crafting_categories@[i]@ == recipe.additional_categories@[j]@,
    ensures
        fits_recipe(crafter, recipe),
{
    assert(contains_name(crafter.crafting_categories@, recipe.additional_categories@[j]@));
}

/// A machine fits a recipe only through the recipe's own category or one of
/// its additional categories.
pub proof fn lemma_fit_has_a_reason(crafter: CraftingMachinePrototype, recipe: RecipePrototype)
    requires
        fits_recipe(crafter, recipe),
    ensures
        exists|i: int|
            0 <= i < crafter.crafting_categories.len() && (match recipe.category {
                Some(c) => #[trigger] crafter.crafting_categories@[i]@ == c@,
                None => crafter.crafting_categories@[i]@ == seq!['c', 'r', 'a', 'f', 't', 'i', 'n', 'g'],
            } || exists|j: int|
                0 <= j < recipe.additional_categories.len() && crafter.crafting_categories@[i]@
                    == recipe.additional_categories@[j]@),
{
    if contains_name(crafter.crafting_categories@, recipe_category(recipe)) {
        let i = choose|i: int|
            0 <= i < crafter.crafting_categories.len() && #[trigger] crafter.crafting_categories@[i]@
                == recipe_category(recipe);
        assert(crafter.crafting_categories@[i]@ == recipe_category(recipe));
    } else {
        let j = choose|j: int|
            0 <= j < recipe.additional_categories.len() && contains_name(
                crafter.crafting_categories@,
                #[trigger] recipe.additional_categories@[j]@,
            );
        let i = choose|i: int|
            0 <= i < crafter.crafting_categories.len() && #[trigger] crafter.crafting_categories@[i]@
                == recipe.additional_categories@[j]@;
        assert(crafter.crafting_categories@[i]@ == recipe.additional_categories@[j]@);
    }
}

/// Listing more additional categories never makes a fitting machine stop
/// fitting: `more` is `recipe` with further additional categories.
pub proof fn lemma_more_categories_still_fit(
    crafter: CraftingMachinePrototype,
    recipe: RecipePrototype,
    more: RecipePrototype,
)
    requires
        fits_recipe(crafter, recipe),
        more.category == recipe.category,
        recipe.additional_categories@.len() <= more.additional_categories@.len(),
        forall|j: int|
            0 <= j < recipe.additional_categories@.len() ==> #[trigger] more.additional_categories@[j]
                == recipe.additional_categories@[j],
    ensures
        fits_recipe(crafter, more),
{
    lemma_fit_has_a_reason(crafter, recipe);
    let i = choose|i: int|
        0 <= i < crafter.crafting_categories.len() && (match recipe.category {
            Some(c) => #[trigger] crafter.crafting_categories@[i]@ == c@,
            None => crafter.crafting_categories@[i]@ == seq!['c', 'r', 'a', 'f', 't', 'i', 'n', 'g'],
        } || exists|j: int|
            0 <= j < recipe.additional_categories.len() && crafter.crafting_categories@[i]@
                == recipe.additional_categories@[j]@);
    if match recipe.category {
        Some(c) => crafter.crafting_categories@[i]@ == c@,
        None => crafter.crafting_categories@[i]@ == seq!['c', 'r', 'a', 'f', 't', 'i', 'n', 'g'],
    } {
        lemma_own_category_fits(crafter, more, i);
    } else {
        let j = choose|j: int|
            0 <= j < recipe.additional_categories.len() && crafter.crafting_categories@[i]@
                == recipe.additional_categories@[j]@;
        assert(more.additional_categories@[j] == recipe.additional_categories@[j]);
        lemma_additional_category_fits(crafter, more, i, j);
    }
}

} // verus!
