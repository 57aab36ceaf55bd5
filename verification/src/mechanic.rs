use vstd::prelude::*;

use crate::common::IdWithQuality;
use crate::data::GenericItem;
use crate::model::{
    contains_name, fits_recipe, machine_fits_for_recipe, machine_fits_for_resource, resource_category,
    CraftingMachinePrototype, MiningDrillPrototype, RecipePrototype, ResourcePrototype,
};
use crate::ordering::entity_key;
use crate::user::{prototype_accessible, ProjectContext};

verus! {

/// How a boiler passes its fluid on.
#[derive(Debug, Clone, Copy, Default, PartialEq, Eq, Structural)]
pub enum BoilerMode {
    #[default]
    HeatFluidInside,
    OutputToSeparatePipe,
}

/// Generators burning or expanding a fluid.
#[derive(Debug, Clone, Default)]
pub struct GeneratorMechanic {
    pub instances: Vec<GeneratorInstance>,
    /// Offer to add generators (there is a demand for electricity).
    pub show_suggestion: bool,
}

/// One generator fed with a fluid at a temperature.
#[derive(Debug, Clone, Default)]
pub struct GeneratorInstance {
    pub generator: IdWithQuality,
    pub fluid: String,
    pub temperature: i32,
}

/// Boilers that heat a fluid.
#[derive(Debug, Clone, Default)]
pub struct BoilerMechanic {
    pub instances: Vec<BoilerInstance>,
}

/// One boiler, the fluid it heats and its temperature, and its fuel:
/// a fluid and temperature, or none for abstract energy.
#[derive(Debug, Clone, Default)]
pub struct BoilerInstance {
    pub boiler: IdWithQuality,
    pub fluid: String,
    pub temperature: i32,
    pub fuel: Option<(String, i32)>,
}

/// Fluids burnt as fuel.
#[derive(Debug, Clone, Default)]
pub struct FluidFuelMechanic {
    pub instances: Vec<FluidFuelInstance>,
}

#[derive(Debug, Clone, Default)]
pub struct FluidFuelInstance {
    pub fluid: String,
    pub temperature: i32,
}

/// Fluids used for their heat.
#[derive(Debug, Clone, Default)]
pub struct FluidHeatMechanic {
    pub instances: Vec<FluidHeatInstance>,
}

#[derive(Debug, Clone, Default)]
pub struct FluidHeatInstance {
    pub fluid: String,
    pub temperature: i32,
}

/// Items burnt as fuel.
#[derive(Debug, Clone, Default)]
pub struct ItemFuelMechanic {
    pub instances: Vec<ItemFuelInstance>,
    /// The fuel category and the item to offer as fuel, if any.
    pub suggested_category: Option<String>,
    pub suggested_item: Option<String>,
}

#[derive(Debug, Clone, Default)]
pub struct ItemFuelInstance {
    pub item: IdWithQuality,
}

/// Items left to spoil.
#[derive(Debug, Clone, Default)]
pub struct SpoilMechanic {
    pub instances: Vec<SpoilInstance>,
    pub suggestion_item: Option<String>,
}

#[derive(Debug, Clone, Default)]
pub struct SpoilInstance {
    pub item: IdWithQuality,
}

/// Seeds planted to grow.
#[derive(Debug, Clone, Default)]
pub struct PlantMechanic {
    pub instances: Vec<PlantInstance>,
}

#[derive(Debug, Clone, Default)]
pub struct PlantInstance {
    pub seed: IdWithQuality,
}

/// Items launched into orbit.
#[derive(Debug, Clone, Default)]
pub struct ItemLaunchMechanic {
    pub instances: Vec<ItemLaunchInstance>,
}

/// One item launched: the rocket's load, a count of stacks and whether it
/// is full.
#[derive(Debug)]
pub struct ItemLaunchInstance {
    pub item: IdWithQuality,
    pub rocket: (u16, bool),
}

impl Clone for ItemLaunchInstance {
    fn clone(&self) -> (r: Self)
        ensures
            r == *self,
    {
        ItemLaunchInstance { item: self.item.duplicate(), rocket: (self.rocket.0, self.rocket.1) }
    }
}

impl Default for ItemLaunchInstance {
    /// An unnamed item, no stacks, not full.
    fn default() -> (r: Self)
        ensures
            r.item.0@.len() == 0,
            r.item.1 == 0,
            r.rocket == (0u16, false),
    {
        ItemLaunchInstance { item: IdWithQuality(String::new(), 0), rocket: (0, false) }
    }
}

/// Reactors and their neighbours.
#[derive(Debug, Clone, Default)]
pub struct ReactorMechanic {
    pub instances: Vec<ReactorInstance>,
}

/// One reactor, how many reactors stand next to it, and its fuel.
#[derive(Debug, Clone, Default)]
pub struct ReactorInstance {
    pub reactor: IdWithQuality,
    pub neighbours: u8,
    pub fuel: Option<(String, i32)>,
}

/// How beacons around a machine are counted.
#[derive(Debug, Clone, Copy, Default, PartialEq, Eq, Structural)]
pub enum BeaconCounter {
    #[default]
    Total,
    SameType,
}

/// Modules in a machine and the beacons around it.
#[derive(Debug, Clone, Default)]
pub struct ModuleConfig {
    pub modules: Vec<IdWithQuality>,
    pub beacons: Vec<BeaconConfig>,
}

/// A kind of beacon around a machine: the modules in each such beacon,
/// with their counts, the beacon itself, and how many stand around.
#[derive(Debug, Clone, Default)]
pub struct BeaconConfig {
    pub modules: Vec<(IdWithQuality, usize)>,
    pub beacon: IdWithQuality,
    pub count: usize,
}

impl ModuleConfig {
    /// No modules and no beacons.
    pub fn new() -> (r: Self)
        ensures
            r.modules@.len() == 0,
            r.beacons@.len() == 0,
    {
        ModuleConfig { modules: Vec::new(), beacons: Vec::new() }
    }
}

/// A machine that makes a recipe, with its modules and fuel.
#[derive(Debug, Clone)]
pub struct RecipeInstance {
    pub recipe: IdWithQuality,
    pub machine: IdWithQuality,
    pub module_config: ModuleConfig,
    /// For fluid or burner machines, the concrete fuel: a fluid and its
    /// temperature, or an item and its quality.
    pub fuel: Option<(String, i32)>,
}

pub open spec fn unknown_recipe() -> Seq<char> {
    seq!['r', 'e', 'c', 'i', 'p', 'e', '-', 'u', 'n', 'k', 'n', 'o', 'w', 'n']
}

impl Default for RecipeInstance {
    /// An unknown recipe in an unknown machine, without modules or fuel.
    fn default() -> (r: Self)
        ensures
            r.recipe.0@ == unknown_recipe(),
            r.recipe.1 == 0,
            r.machine.0@ == unknown_entity(),
            r.machine.1 == 0,
            r.module_config.modules@.len() == 0,
            r.module_config.beacons@.len() == 0,
            r.fuel is None,
    {
        let recipe = IdWithQuality("recipe-unknown".to_string(), 0);
        let machine = IdWithQuality("entity-unknown".to_string(), 0);
        proof {
            reveal_strlit("recipe-unknown");
            reveal_strlit("entity-unknown");
            assert(recipe.0@ =~= unknown_recipe());
            assert(machine.0@ =~= unknown_entity());
        }
        RecipeInstance { recipe, machine, module_config: ModuleConfig::new(), fuel: None }
    }
}

/// The modules that beacons placed automatically carry.
#[derive(Debug, Clone, Default)]
pub struct AutoBeaconConfig {
    pub module_config: ModuleConfig,
}

/// A source that gives an item without limit.
#[derive(Debug, Clone, Default)]
pub struct InfiniteSource {
    pub item: GenericItem,
}

pub open spec fn unknown_entity() -> Seq<char> {
    seq!['e', 'n', 't', 'i', 't', 'y', '-', 'u', 'n', 'k', 'n', 'o', 'w', 'n']
}

/// A drill mining a resource, with its modules and fuel.
#[derive(Debug, Clone)]
pub struct MiningMechanicInstance {
    pub resource: String,
    pub machine: IdWithQuality,
    pub module_config: ModuleConfig,
    pub instance_fuel: Option<IdWithQuality>,
}

impl Default for MiningMechanicInstance {
    /// An unknown drill on an unknown resource, without modules or fuel.
    fn default() -> (r: Self)
        ensures
            r.resource@ == unknown_entity(),
            r.machine.0@ == unknown_entity(),
            r.machine.1 == 0,
            r.module_config.modules@.len() == 0,
            r.module_config.beacons@.len() == 0,
            r.instance_fuel is None,
    {
        let resource = "entity-unknown".to_string();
        let machine = IdWithQuality("entity-unknown".to_string(), 0);
        proof {
            reveal_strlit("entity-unknown");
            assert(resource@ =~= unknown_entity());
        }
        MiningMechanicInstance { resource, machine, module_config: ModuleConfig::new(), instance_fuel: None }
    }
}

/// Some crafting machine named `p.0` can make `recipe`.
pub open spec fn preference_fits(
    crafters: Seq<CraftingMachinePrototype>,
    recipe: RecipePrototype,
    p: IdWithQuality,
) -> bool {
    exists|c: int| 0 <= c < crafters.len() && #[trigger] crafters[c].base.name@ == p.0@ && fits_recipe(
        crafters[c],
        recipe,
    )
}

/// The first of the user's preferred machines that can make `recipe`, if
/// any.
pub fn preferred_crafter(
    crafters: &Vec<CraftingMachinePrototype>,
    recipe: &RecipePrototype,
    preferences: &Vec<IdWithQuality>,
) -> (r: Option<IdWithQuality>)
    ensures
        match r {
            Some(p) => exists|i: int|
                0 <= i < preferences.len() && preferences@[i] == p && preference_fits(crafters@, *recipe, p)
                    && forall|j: int| 0 <= j < i ==> !#[trigger] preference_fits(crafters@, *recipe, preferences@[j]),
            None => forall|i: int|
                0 <= i < preferences.len() ==> !#[trigger] preference_fits(crafters@, *recipe, preferences@[i]),
        },
{
    let mut i: usize = 0;
    while i < preferences.len()
        invariant
            i <= preferences.len(),
            forall|j: int| 0 <= j < i ==> !#[trigger] preference_fits(crafters@, *recipe, preferences@[j]),
        decreases preferences.len() - i,
    {
        let pref = &preferences[i];
        let mut c: usize = 0;
        while c < crafters.len()
            invariant
                c <= crafters.len(),
                i < preferences.len(),
                pref == &preferences@[i as int],
                forall|j: int| 0 <= j < i ==> !#[trigger] preference_fits(crafters@, *recipe, preferences@[j]),
                forall|t: int|
                    0 <= t < c ==> !(#[trigger] crafters@[t].base.name@ == pref.0@ && fits_recipe(
                        crafters@[t],
                        *recipe,
                    )),
            decreases crafters.len() - c,
        {
            if crafters[c].base.name == pref.0 && machine_fits_for_recipe(&crafters[c], recipe) {
                assert(crafters@[c as int].base.name@ == pref.0@);
                assert(preference_fits(crafters@, *recipe, preferences@[i as int]));
                return Some(pref.duplicate());
            }
            c = c + 1;
        }
        i = i + 1;
    }
    None
}

/// `crafter` may be chosen for `recipe` when no preference fits: it can
/// make the recipe, is not excluded, and may be used.
pub open spec fn crafter_eligible(
    crafter: CraftingMachinePrototype,
    recipe: RecipePrototype,
    excluding: Seq<IdWithQuality>,
    accessible: Map<Seq<char>, crate::common::Dict<bool>>,
) -> bool {
    &&& fits_recipe(crafter, recipe)
    &&& !(exists|e: int| 0 <= e < excluding.len() && #[trigger] excluding[e].0@ == crafter.base.name@)
    &&& prototype_accessible(accessible, entity_key(), crafter.base.name@)
}

/// `r` lists, in increasing order, exactly the indices below `len` at
/// which `p` holds.
pub open spec fn indices_where(r: Seq<usize>, len: int, p: spec_fn(int) -> bool) -> bool {
    &&& forall|k: int| 0 <= k < r.len() ==> #[trigger] r[k] < len && p(r[k] as int)
    &&& forall|k: int, l: int| 0 <= k < l < r.len() ==> #[trigger] r[k] < #[trigger] r[l]
    &&& forall|i: int| 0 <= i < len && p(i) ==> #[trigger] r.contains(i as usize)
}

fn excluded(excluding: &Vec<IdWithQuality>, name: &String) -> (r: bool)
    ensures
        r == exists|e: int| 0 <= e < excluding.len() && #[trigger] excluding@[e].0@ == name@,
{
    let mut e: usize = 0;
    while e < excluding.len()
        invariant
            e <= excluding.len(),
            forall|t: int| 0 <= t < e ==> #[trigger] excluding@[t].0@ != name@,
        decreases excluding.len() - e,
    {
        if excluding[e].0 == *name {
            return true;
        }
        e = e + 1;
    }
    false
}

/// The crafting machines to weigh against each other for `recipe` when no
/// preference fits: those that can make it, are not excluded and may be
/// used, by index in their order.
pub fn eligible_crafters(
    crafters: &Vec<CraftingMachinePrototype>,
    recipe: &RecipePrototype,
    excluding: &Vec<IdWithQuality>,
    proj: &ProjectContext,
) -> (r: Vec<usize>)
    ensures
        indices_where(
            r@,
            crafters.len() as int,
            |i: int| crafter_eligible(crafters@[i], *recipe, excluding@, proj.accessible_prototypes@),
        ),
{
    let ghost p = |i: int| crafter_eligible(crafters@[i], *recipe, excluding@, proj.accessible_prototypes@);
    proof {
        reveal_strlit("entity");
        assert("entity"@ =~= entity_key());
    }
    let mut r: Vec<usize> = Vec::new();
    let mut i: usize = 0;
    while i < crafters.len()
        invariant
            i <= crafters.len(),
            "entity"@ == entity_key(),
            p == (|i: int| crafter_eligible(crafters@[i], *recipe, excluding@, proj.accessible_prototypes@)),
            forall|k: int| 0 <= k < r.len() ==> #[trigger] r@[k] < i && p(r@[k] as int),
            forall|k: int, l: int| 0 <= k < l < r.len() ==> #[trigger] r@[k] < #[trigger] r@[l],
            forall|j: int| 0 <= j < i && p(j) ==> #[trigger] r@.contains(j as usize),
        decreases crafters.len() - i,
    {
        let c = &crafters[i];
        if machine_fits_for_recipe(c, recipe) && !excluded(excluding, &c.base.name)
            && proj.is_prototype_accessible("entity", c.base.name.as_str()) {
            let ghost before = r@;
            r.push(i);
            assert(r@[r.len() - 1] == i);
            assert forall|j: int| 0 <= j < i + 1 && p(j) implies #[trigger] r@.contains(j as usize) by {
                if j < i {
                    assert(before.contains(j as usize));
                    let k = choose|k: int| 0 <= k < before.len() && before[k] == j as usize;
                    assert(r@[k] == before[k]);
                } else {
                    assert(r@[r.len() - 1] == j as usize);
                }
            }
        }
        i = i + 1;
    }
    r
}

/// The mining drills to weigh against each other for `resource` when no
/// preference fits: those that can mine it, by index in their order.
pub fn fitting_miners(miners: &Vec<MiningDrillPrototype>, resource: &ResourcePrototype) -> (r: Vec<usize>)
    ensures
        indices_where(
            r@,
            miners.len() as int,
            |i: int| contains_name(miners@[i].resource_categories@, resource_category(*resource)),
        ),
{
    let ghost p = |i: int| contains_name(miners@[i].resource_categories@, resource_category(*resource));
    let mut r: Vec<usize> = Vec::new();
    let mut i: usize = 0;
    while i < miners.len()
        invariant
            i <= miners.len(),
            p == (|i: int| contains_name(miners@[i].resource_categories@, resource_category(*resource))),
            forall|k: int| 0 <= k < r.len() ==> #[trigger] r@[k] < i && p(r@[k] as int),
            forall|k: int, l: int| 0 <= k < l < r.len() ==> #[trigger] r@[k] < #[trigger] r@[l],
            forall|j: int| 0 <= j < i && p(j) ==> #[trigger] r@.contains(j as usize),
        decreases miners.len() - i,
    {
        if machine_fits_for_resource(&miners[i], resource) {
            let ghost before = r@;
            r.push(i);
            assert(r@[r.len() - 1] == i);
            assert forall|j: int| 0 <= j < i + 1 && p(j) implies #[trigger] r@.contains(j as usize) by {
                if j < i {
                    assert(before.contains(j as usize));
                    let k = choose|k: int| 0 <= k < before.len() && before[k] == j as usize;
                    assert(r@[k] == before[k]);
                } else {
                    assert(r@[r.len() - 1] == j as usize);
                }
            }
        }
        i = i + 1;
    }
    r
}

/// Some mining drill named `p.0` can mine `resource`.
pub open spec fn miner_preference_fits(
    miners: Seq<MiningDrillPrototype>,
    resource: ResourcePrototype,
    p: IdWithQuality,
) -> bool {
    exists|c: int|
        0 <= c < miners.len() && #[trigger] miners[c].base.name@ == p.0@ && contains_name(
            miners[c].resource_categories@,
            resource_category(resource),
        )
}

/// The first of the user's preferred drills that can mine `resource`, if
/// any.
pub fn preferred_miner(
    miners: &Vec<MiningDrillPrototype>,
    resource: &ResourcePrototype,
    preferences: &Vec<IdWithQuality>,
) -> (r: Option<IdWithQuality>)
    ensures
        match r {
            Some(p) => exists|i: int|
                0 <= i < preferences.len() && preferences@[i] == p && miner_preference_fits(miners@, *resource, p)
                    && forall|j: int| 0 <= j < i ==> !#[trigger] miner_preference_fits(miners@, *resource, preferences@[j]),
            None => forall|i: int|
                0 <= i < preferences.len() ==> !#[trigger] miner_preference_fits(miners@, *resource, preferences@[i]),
        },
{
    let mut i: usize = 0;
    while i < preferences.len()
        invariant
            i <= preferences.len(),
            forall|j: int| 0 <= j < i ==> !#[trigger] miner_preference_fits(miners@, *resource, preferences@[j]),
        decreases preferences.len() - i,
    {
        let pref = &preferences[i];
        let mut c: usize = 0;
        while c < miners.len()
            invariant
                c <= miners.len(),
                i < preferences.len(),
                pref == &preferences@[i as int],
                forall|j: int| 0 <= j < i ==> !#[trigger] miner_preference_fits(miners@, *resource, preferences@[j]),
                forall|t: int|
                    0 <= t < c ==> !(#[trigger] miners@[t].base.name@ == pref.0@ && contains_name(
                        miners@[t].resource_categories@,
                        resource_category(*resource),
                    )),
            decreases miners.len() - c,
        {
            if miners[c].base.name == pref.0 && machine_fits_for_resource(&miners[c], resource) {
                assert(miners@[c as int].base.name@ == pref.0@);
                assert(miner_preference_fits(miners@, *resource, preferences@[i as int]));
                return Some(pref.duplicate());
            }
            c = c + 1;
        }
        i = i + 1;
    }
    None
}

} // verus!
