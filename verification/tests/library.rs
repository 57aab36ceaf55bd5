use metatorio::common::{Dict, IdWithQuality, ItemSubgroup, PrototypeBase};
use metatorio::data::{i32_inf_range, DataContext, GenericItem, ModInfo};
use metatorio::effect::{EffectType, EffectTypeLimitation};
use metatorio::filter::{str_contains, str_filter, try_str_filter};
use metatorio::graph::{locks_spread_end, resolve_dependency, Modifier, TechnologyPrototype};
use metatorio::item_sort::sort_generic_items_owned;
use metatorio::mechanic::{
    eligible_crafters, fitting_miners, preferred_crafter, preferred_miner, ItemLaunchInstance,
    MiningMechanicInstance, ModuleConfig,
};
use metatorio::milestone::set_default_milestones;
use metatorio::mod_version::{classify_mod_entry, folder_version_replaces, is_builtin_mod, mod_scan_step, ModEntry};
use metatorio::model::{
    collect_module_limitations, machine_fits_for_recipe, machine_fits_for_resource,
    AutoplaceSpecification, CraftingMachinePrototype, EntityPrototype, TilePrototype, ItemPrototype, Minable, MiningDrillPrototype,
    RecipePrototype, RecipeResult, ResourcePrototype,
};
use metatorio::order::{get_order_info, get_reverse_order_info, OrderInfo, ReverseOrderInfo};
use metatorio::planner::reset_instances;
use metatorio::quality_chain::quality_chain;
use metatorio::planet::{PlanetMapGenSettings, PlanetPrototype};
use metatorio::unlock::{refresh_after_load, update_accessibles};
use metatorio::user::{ProjectContext, ProjectPage, TimeScale};
use metatorio::version::version_string_to_triplet;

fn base(prototype_type: &str, name: &str, order: &str, subgroup: &str) -> PrototypeBase {
    PrototypeBase {
        prototype_type: prototype_type.to_string(),
        name: name.to_string(),
        order: order.to_string(),
        subgroup: subgroup.to_string(),
        hidden: false,
        parameter: false,
    }
}

fn empty_data() -> DataContext {
    DataContext {
        mods: vec![],
        technologies: vec![],
        fuel_categories: vec![],
        airborne_pollutants: vec![],
        qualities: vec![],
        items: vec![],
        entities: vec![],
        fluids: vec![],
        recipes: vec![],
        crafters: vec![],
        recipe_categories: vec![],
        resources: vec![],
        miners: vec![],
        tiles: vec![],
        localized_name: Dict::new(),
        localized_description: Dict::new(),
        groups: Dict::new(),
        subgroups: Dict::new(),
        ordered_entries: Dict::new(),
        order_of_entries: Dict::new(),
    }
}

fn empty_project() -> ProjectContext {
    ProjectContext {
        time_scale: TimeScale::Seconds,
        tech_milestones: vec![],
        accessible_technologies: vec![],
        accessible_prototypes: Dict::new(),
        max_quality_level: 0,
        saved: true,
        selected_page: ProjectPage::UserContext,
    }
}

fn tech(name: &str, prerequisites: &[&str], effects: Vec<Modifier>) -> TechnologyPrototype {
    TechnologyPrototype {
        base: base("technology", name, "", ""),
        essential: false,
        prerequisites: prerequisites.iter().map(|p| p.to_string()).collect(),
        effects,
    }
}

fn recipe(name: &str, results: Vec<RecipeResult>, enabled: bool) -> RecipePrototype {
    RecipePrototype {
        base: base("recipe", name, "", ""),
        category: None,
        additional_categories: vec![],
        results,
        main_product: None,
        allowed_module_categories: None,
        enabled,
        allow_consumption: true,
        allow_speed: true,
        allow_productivity: false,
        allow_pollution: true,
        allow_quality: true,
    }
}

fn item(prototype_type: &str, name: &str, place_result: Option<&str>) -> ItemPrototype {
    ItemPrototype {
        base: base(prototype_type, name, "", ""),
        plant: None,
        place_as_tile: None,
        place_result: place_result.map(|p| p.to_string()),
        rocket_launch_products: vec![],
    }
}

fn item_result(name: &str) -> RecipeResult {
    RecipeResult::Item { name: name.to_string() }
}

fn sorted(mut v: Vec<String>) -> Vec<String> {
    v.sort();
    v
}

fn table_names(p: &ProjectContext, key: &str) -> Option<Vec<String>> {
    let table = p.accessible_prototypes.get(key)?;
    let mut names = vec![];
    for n in [
        "iron-plate", "iron-gear-wheel", "furnace", "water", "quality-module", "uncommon", "rare",
        "nauvis", "gleba", "stone-furnace", "iron-ore", "copper-ore", "crude-oil", "assembler",
    ] {
        if let Some(v) = table.get(n) {
            assert!(*v);
            names.push(n.to_string());
        }
    }
    Some(sorted(names))
}

#[test]
fn version_missing_and_bad_parts_count_as_zero() {
    assert_eq!(version_string_to_triplet("2.0"), (2, 0, 0));
    assert_eq!(version_string_to_triplet("x.5.7"), (0, 5, 7));
    assert_eq!(version_string_to_triplet(""), (0, 0, 0));
    assert_eq!(version_string_to_triplet("1.2.3.4"), (1, 2, 3));
    assert_eq!(version_string_to_triplet("1..3"), (1, 0, 3));
}

#[test]
fn version_parts_follow_u16_parsing() {
    assert_eq!(version_string_to_triplet("+3.1.70000"), (3, 1, 0));
    assert_eq!(version_string_to_triplet("65535.-1.007"), (65535, 0, 7));
    assert_eq!(version_string_to_triplet(" 1.2.3"), (0, 2, 3));
}

#[test]
fn version_order_follows_parts() {
    assert!(version_string_to_triplet("1.10.0") > version_string_to_triplet("1.9.9"));
    assert!(version_string_to_triplet("2.0.0") > version_string_to_triplet("1.99.99"));
}

#[test]
fn inf_range_spans_i32() {
    assert_eq!(i32_inf_range(), [i32::MIN, i32::MAX]);
}

#[test]
fn energy_items() {
    assert!(GenericItem::Heat.is_energy());
    assert!(GenericItem::Electricity.is_energy());
    assert!(GenericItem::ItemFuel { category: "chemical".to_string() }.is_energy());
    assert!(GenericItem::FluidFuel { filter: None }.is_energy());
    assert!(GenericItem::FluidHeat { filter: Some("steam".to_string()) }.is_energy());
    assert!(!GenericItem::Item(IdWithQuality::from_name("iron-plate")).is_energy());
    assert!(!GenericItem::RocketPayloadWeight.is_energy());
    assert!(!GenericItem::Pollution { name: "pollution".to_string() }.is_energy());
}

#[test]
fn generic_item_default_is_unknown_item() {
    let d = GenericItem::default();
    assert_eq!(d, GenericItem::Item(IdWithQuality("item-unknown".to_string(), 0)));
}

#[test]
fn id_with_quality_conversions() {
    let a = IdWithQuality::from_name("iron-plate");
    assert_eq!(a, IdWithQuality("iron-plate".to_string(), 0));
    let b: IdWithQuality = "copper-plate".to_string().into();
    assert_eq!(b, IdWithQuality("copper-plate".to_string(), 0));
    let c: IdWithQuality = ("steel".to_string(), 3u8).into();
    assert_eq!(c, IdWithQuality("steel".to_string(), 3));
    assert_eq!(c.duplicate(), c);
}

fn effects_of(l: &EffectTypeLimitation) -> Vec<EffectType> {
    match l {
        EffectTypeLimitation::Multiple(v) => v.clone(),
        other => panic!("not a list: {:?}", other),
    }
}

#[test]
fn effect_limitation_from_flags() {
    let l = EffectTypeLimitation::new(true, false, true, false, true);
    assert_eq!(
        effects_of(&l),
        vec![EffectType::Consumption, EffectType::Productivity, EffectType::Quality]
    );
    let none = EffectTypeLimitation::new(false, false, false, false, false);
    assert!(effects_of(&none).is_empty());
}

#[test]
fn effect_limitation_normalized() {
    let single = EffectTypeLimitation::Single(EffectType::Speed);
    assert_eq!(effects_of(&single.normalized()), vec![EffectType::Speed]);
    let empty = EffectTypeLimitation::Empty(serde_json::Value::Null);
    assert!(effects_of(&empty.normalized()).is_empty());
    let many = EffectTypeLimitation::Multiple(vec![EffectType::Pollution, EffectType::Speed]);
    assert_eq!(effects_of(&many.normalized()), vec![EffectType::Pollution, EffectType::Speed]);
    assert!(effects_of(&EffectTypeLimitation::default()).is_empty());
}

#[test]
fn effect_limitation_intersect() {
    let a = EffectTypeLimitation::Multiple(vec![
        EffectType::Speed,
        EffectType::Quality,
        EffectType::Consumption,
    ]);
    let b = EffectTypeLimitation::Multiple(vec![EffectType::Consumption, EffectType::Speed]);
    assert_eq!(effects_of(&a.intersect(&b)), vec![EffectType::Speed, EffectType::Consumption]);
    assert_eq!(effects_of(&b.intersect(&a)), vec![EffectType::Consumption, EffectType::Speed]);
    let s = EffectTypeLimitation::Single(EffectType::Quality);
    assert_eq!(effects_of(&a.intersect(&s)), vec![EffectType::Quality]);
    let e = EffectTypeLimitation::Empty(serde_json::Value::Null);
    assert!(effects_of(&a.intersect(&e)).is_empty());
}

#[test]
fn str_contains_finds_runs() {
    assert!(str_contains("iron-plate", "plate"));
    assert!(str_contains("iron-plate", ""));
    assert!(str_contains("", ""));
    assert!(!str_contains("abc", "abd"));
    assert!(!str_contains("ab", "abc"));
    assert!(str_contains("aab", "ab"));
}

fn data_with_names() -> DataContext {
    let mut data = empty_data();
    let mut items = Dict::new();
    items.insert("iron-plate".to_string(), "Iron Plate".to_string());
    data.localized_name.insert("item".to_string(), items);
    data
}

#[test]
fn display_name_falls_back_to_unlocalized() {
    let data = data_with_names();
    assert_eq!(data.get_display_name("item", "iron-plate"), "Iron Plate");
    assert_eq!(data.get_display_name("item", "copper"), "copper (unlocalized)");
}

#[test]
fn str_filter_ignores_case() {
    let data = data_with_names();
    assert!(str_filter("iron-plate", &data, "item", "IRON"));
    assert!(str_filter("iron-plate", &data, "item", "on pl"));
    assert!(!str_filter("iron-plate", &data, "item", "plate p"));
    assert!(str_filter("copper", &data, "item", "(UNLOC"));
    assert!(str_filter("Copper", &data, "fluid", "copper"));
}

#[test]
fn try_str_filter_without_table() {
    let data = data_with_names();
    assert_eq!(try_str_filter("iron-plate", &data, "fluid", "IRON"), Some(true));
    assert_eq!(try_str_filter("iron-plate", &data, "fluid", "water"), None);
    assert_eq!(try_str_filter("iron-plate", &data, "item", "water"), Some(false));
}

fn order_fixture() -> (Vec<PrototypeBase>, Dict<PrototypeBase>, Dict<ItemSubgroup>) {
    let protos = vec![
        base("item", "p1", "b", "s1"),
        base("item", "c", "a", "unknown-subgroup"),
        base("item", "p2", "a", "s1"),
        base("item", "p0", "b", "s1"),
        base("item", "q", "", "s2"),
    ];
    let mut groups = Dict::new();
    groups.insert("g1".to_string(), base("item-group", "g1", "x", ""));
    let mut subgroups = Dict::new();
    subgroups.insert(
        "s1".to_string(),
        ItemSubgroup { base: base("item-subgroup", "s1", "a", ""), group: "g1".to_string() },
    );
    subgroups.insert(
        "s2".to_string(),
        ItemSubgroup { base: base("item-subgroup", "s2", "z", ""), group: "missing".to_string() },
    );
    (protos, groups, subgroups)
}

fn names(v: &[&str]) -> Vec<String> {
    v.iter().map(|s| s.to_string()).collect()
}

#[test]
fn order_info_groups_and_sorts() {
    let (protos, groups, subgroups) = order_fixture();
    let info: OrderInfo = get_order_info(&protos, &groups, &subgroups);
    let expected: OrderInfo = vec![
        (
            "other".to_string(),
            vec![("".to_string(), names(&["c"])), ("s2".to_string(), names(&["q"]))],
        ),
        ("g1".to_string(), vec![("s1".to_string(), names(&["p2", "p0", "p1"]))]),
    ];
    assert_eq!(info, expected);
}

#[test]
fn reverse_order_info_finds_positions() {
    let (protos, groups, subgroups) = order_fixture();
    let info = get_order_info(&protos, &groups, &subgroups);
    let rev: ReverseOrderInfo = get_reverse_order_info(&info);
    assert_eq!(rev.get("c"), Some(&(0, 0, 0)));
    assert_eq!(rev.get("q"), Some(&(0, 1, 0)));
    assert_eq!(rev.get("p2"), Some(&(1, 0, 0)));
    assert_eq!(rev.get("p0"), Some(&(1, 0, 1)));
    assert_eq!(rev.get("p1"), Some(&(1, 0, 2)));
    assert_eq!(rev.get("absent"), None);
    assert_eq!(rev.len(), 5);
}

#[test]
fn reverse_order_info_keeps_last_duplicate() {
    let info: OrderInfo = vec![
        ("g".to_string(), vec![("s".to_string(), names(&["a", "b"]))]),
        ("h".to_string(), vec![("t".to_string(), names(&["a"]))]),
    ];
    let rev = get_reverse_order_info(&info);
    assert_eq!(rev.get("a"), Some(&(1, 0, 0)));
    assert_eq!(rev.get("b"), Some(&(0, 0, 1)));
}

#[test]
fn resolve_dependency_spreads_locks() {
    let techs = vec![
        tech("a", &[], vec![]),
        tech("b", &["a"], vec![]),
        tech("c", &["b"], vec![]),
        tech("d", &[], vec![]),
        tech("e", &["d", "c"], vec![]),
    ];
    let milestones = vec![("b".to_string(), false), ("d".to_string(), true)];
    let r = resolve_dependency(&techs, &milestones);
    assert_eq!(sorted(r), names(&["a", "d"]));
}

#[test]
fn resolve_dependency_without_locks_keeps_all() {
    let techs = vec![tech("a", &[], vec![]), tech("b", &["a"], vec![])];
    let r = resolve_dependency(&techs, &vec![("a".to_string(), true)]);
    assert_eq!(sorted(r), names(&["a", "b"]));
    let r = resolve_dependency(&techs, &vec![]);
    assert_eq!(sorted(r), names(&["a", "b"]));
}

#[test]
fn resolve_dependency_unlocked_cycle_stays() {
    let techs = vec![
        tech("a", &["b"], vec![]),
        tech("b", &["a"], vec![]),
        tech("c", &[], vec![]),
        tech("d", &["c"], vec![]),
    ];
    let r = resolve_dependency(&techs, &vec![("c".to_string(), false)]);
    assert_eq!(sorted(r), names(&["a", "b"]));
}

fn unlock_data() -> DataContext {
    let mut data = empty_data();
    data.technologies = vec![
        tech(
            "automation",
            &[],
            vec![
                Modifier::UnlockRecipe { recipe: "iron-gear-wheel".to_string() },
                Modifier::UnlockRecipe { recipe: "no-such-recipe".to_string() },
                Modifier::UnlockQuality { quality: "uncommon".to_string() },
            ],
        ),
        tech(
            "quality-2",
            &["automation"],
            vec![
                Modifier::UnlockQuality { quality: "rare".to_string() },
                Modifier::UnlockSpaceLocation { space_location: "gleba".to_string() },
            ],
        ),
        tech("assembling", &["automation"], vec![Modifier::UnlockRecipe { recipe: "assembler".to_string() }]),
    ];
    data.recipes = vec![
        recipe("iron-plate", vec![item_result("iron-plate")], true),
        recipe("iron-gear-wheel", vec![item_result("iron-gear-wheel")], false),
        recipe("assembler", vec![item_result("assembler")], false),
        recipe(
            "water-pump",
            vec![RecipeResult::Fluid { name: "water".to_string() }],
            false,
        ),
    ];
    data.items = vec![
        item("item", "iron-plate", None),
        item("item", "iron-gear-wheel", None),
        item("item", "stone-furnace", Some("furnace")),
        item("item", "assembler", Some("assembler")),
    ];
    data.resources = vec![ResourcePrototype {
        base: EntityPrototype {
            base: base("resource", "stone", "", ""),
            minable: Some(Minable {
                result: Some("stone-furnace".to_string()),
                results: vec![RecipeResult::Fluid { name: "crude-oil".to_string() }],
            }),
            autoplace: None,
        },
        category: None,
        infinite: false,
    }];
    data.qualities = vec![
        base("quality", "normal", "", ""),
        base("quality", "uncommon", "", ""),
        base("quality", "rare", "", ""),
        base("quality", "epic", "", ""),
    ];
    data
}

#[test]
fn update_accessibles_with_all_researched() {
    let data = unlock_data();
    let mut proj = empty_project();
    proj.accessible_prototypes.insert("stale".to_string(), Dict::new());
    update_accessibles(&mut proj, &data);
    assert_eq!(sorted(proj.accessible_technologies.clone()), names(&["assembling", "automation", "quality-2"]));
    assert_eq!(table_names(&proj, "recipe"), Some(names(&["assembler", "iron-gear-wheel", "iron-plate"])));
    assert_eq!(table_names(&proj, "quality"), Some(names(&["rare", "uncommon"])));
    assert_eq!(table_names(&proj, "space-location"), Some(names(&["gleba"])));
    assert_eq!(
        table_names(&proj, "item"),
        Some(names(&["assembler", "iron-gear-wheel", "iron-plate", "stone-furnace"]))
    );
    assert_eq!(table_names(&proj, "fluid"), Some(names(&["crude-oil"])));
    assert_eq!(table_names(&proj, "entity"), Some(names(&["assembler", "furnace"])));
    assert!(proj.accessible_prototypes.get("stale").is_none());
    assert_eq!(proj.accessible_prototypes.len(), 6);
    assert_eq!(proj.max_quality_level, 2);
    assert!(proj.is_prototype_accessible("recipe", "iron-gear-wheel"));
    assert!(!proj.is_prototype_accessible("recipe", "water-pump"));
    assert!(!proj.is_prototype_accessible("recipe", "no-such-recipe"));
    assert!(proj.is_prototype_accessible("technology", "anything"));
}

#[test]
fn update_accessibles_with_milestone_lock() {
    let data = unlock_data();
    let mut proj = empty_project();
    proj.tech_milestones = vec![("automation".to_string(), false)];
    update_accessibles(&mut proj, &data);
    assert!(proj.accessible_technologies.is_empty());
    assert_eq!(table_names(&proj, "recipe"), Some(names(&["iron-plate"])));
    assert_eq!(table_names(&proj, "quality"), None);
    assert_eq!(table_names(&proj, "space-location"), None);
    assert_eq!(table_names(&proj, "item"), Some(names(&["iron-plate", "stone-furnace"])));
    assert_eq!(table_names(&proj, "entity"), Some(names(&["furnace"])));
    // No quality table: every level may be used.
    assert_eq!(proj.max_quality_level, 3);
    assert!(proj.is_prototype_accessible("quality", "epic"));
    assert_eq!(proj.tech_milestones, vec![("automation".to_string(), false)]);
    assert!(proj.saved);
}

#[test]
fn update_accessibles_quality_stops_at_gap() {
    let mut data = unlock_data();
    data.qualities = vec![
        base("quality", "normal", "", ""),
        base("quality", "rare", "", ""),
        base("quality", "uncommon", "", ""),
    ];
    let mut proj = empty_project();
    proj.tech_milestones = vec![("quality-2".to_string(), false)];
    update_accessibles(&mut proj, &data);
    assert_eq!(table_names(&proj, "quality"), Some(names(&["uncommon"])));
    assert_eq!(proj.max_quality_level, 0);
}

#[test]
fn update_accessibles_on_empty_data() {
    let data = empty_data();
    let mut proj = empty_project();
    update_accessibles(&mut proj, &data);
    assert!(proj.accessible_technologies.is_empty());
    assert!(proj.accessible_prototypes.is_empty());
    assert_eq!(proj.max_quality_level, 0);
}

#[test]
fn default_milestones_pick_progress_technologies() {
    let mut data = empty_data();
    data.technologies = vec![
        tech("logistics", &[], vec![Modifier::UnlockRecipe { recipe: "belt".to_string() }]),
        tech("science", &[], vec![Modifier::UnlockRecipe { recipe: "red-pack".to_string() }]),
        tech("planets", &[], vec![Modifier::UnlockSpaceLocation { space_location: "vulcanus".to_string() }]),
        tech("silo", &[], vec![Modifier::UnlockRecipe { recipe: "silo".to_string() }]),
        tech("satellite", &[], vec![Modifier::UnlockRecipe { recipe: "satellite".to_string() }]),
        tech("quality", &[], vec![Modifier::Other, Modifier::UnlockQuality { quality: "rare".to_string() }]),
        tech("nothing", &[], vec![Modifier::Other]),
    ];
    data.recipes = vec![
        recipe("belt", vec![item_result("belt")], false),
        recipe("red-pack", vec![RecipeResult::Fluid { name: "x".to_string() }, item_result("red-pack")], false),
        recipe("silo", vec![item_result("silo")], false),
        recipe("satellite", vec![item_result("satellite")], false),
    ];
    let mut satellite = item("item", "satellite", None);
    satellite.rocket_launch_products = names(&["space-pack"]);
    data.items = vec![
        item("item", "belt", Some("belt")),
        item("tool", "red-pack", None),
        item("item", "silo", Some("rocket-silo")),
        satellite,
        item("tool", "space-pack", None),
    ];
    data.entities = vec![EntityPrototype { base: base("rocket-silo", "rocket-silo", "", ""), minable: None, autoplace: None }];
    let mut proj = empty_project();
    proj.tech_milestones = vec![("kept".to_string(), false)];
    set_default_milestones(&mut proj, &data);
    assert_eq!(
        proj.tech_milestones,
        vec![
            ("kept".to_string(), false),
            ("science".to_string(), true),
            ("planets".to_string(), true),
            ("silo".to_string(), true),
            ("satellite".to_string(), true),
            ("quality".to_string(), true),
        ]
    );
}

fn crafter(name: &str, categories: &[&str]) -> CraftingMachinePrototype {
    CraftingMachinePrototype {
        base: base("assembling-machine", name, "", ""),
        crafting_categories: names(categories),
        allowed_effects: None,
        allowed_module_categories: None,
        fixed_recipe: None,
        fixed_quality: None,
    }
}

#[test]
fn machine_fits_by_category() {
    let mut r = recipe("gear", vec![], false);
    let assembler_machine = crafter("assembler_machine", &["crafting", "advanced-crafting"]);
    let chem = crafter("chem", &["chemistry"]);
    assert!(machine_fits_for_recipe(&assembler_machine, &r));
    assert!(!machine_fits_for_recipe(&chem, &r));
    r.category = Some("chemistry".to_string());
    assert!(!machine_fits_for_recipe(&assembler_machine, &r));
    assert!(machine_fits_for_recipe(&chem, &r));
    r.additional_categories = names(&["advanced-crafting"]);
    assert!(machine_fits_for_recipe(&assembler_machine, &r));
}

#[test]
fn miner_fits_by_resource_category() {
    let drill = MiningDrillPrototype {
        base: base("mining-drill", "drill", "", ""),
        resource_categories: names(&["basic-solid"]),
        allowed_effects: None,
        allowed_module_categories: None,
        uses_force_mining_productivity_bonus: true,
    };
    let mut ore = ResourcePrototype {
        base: EntityPrototype { base: base("resource", "iron-ore", "", ""), minable: None, autoplace: None },
        category: None,
        infinite: false,
    };
    assert!(machine_fits_for_resource(&drill, &ore));
    ore.category = Some("basic-fluid".to_string());
    assert!(!machine_fits_for_resource(&drill, &ore));
}

#[test]
fn module_limitations_join() {
    let mut assembler_machine = crafter("assembler_machine", &["crafting"]);
    let mut r = recipe("gear", vec![], false);
    let (effects, categories) = collect_module_limitations(&assembler_machine, &r);
    assert!(effects_of(&effects).is_empty());
    assert_eq!(categories, None);
    assembler_machine.allowed_effects = Some(EffectTypeLimitation::Multiple(vec![
        EffectType::Quality,
        EffectType::Speed,
        EffectType::Productivity,
    ]));
    assembler_machine.allowed_module_categories = Some(names(&["speed"]));
    r.allowed_module_categories = Some(names(&["quality", "speed"]));
    let (effects, categories) = collect_module_limitations(&assembler_machine, &r);
    assert_eq!(effects_of(&effects), vec![EffectType::Speed, EffectType::Quality]);
    assert_eq!(categories, Some(names(&["speed", "quality", "speed"])));
}

#[test]
fn preferred_crafter_takes_first_fitting() {
    let crafters = vec![crafter("furnace", &["smelting"]), crafter("assembler_machine", &["crafting"])];
    let r = recipe("gear", vec![], false);
    let prefs = vec![
        IdWithQuality("missing".to_string(), 1),
        IdWithQuality("furnace".to_string(), 2),
        IdWithQuality("assembler_machine".to_string(), 3),
        IdWithQuality("assembler_machine".to_string(), 4),
    ];
    assert_eq!(preferred_crafter(&crafters, &r, &prefs), Some(IdWithQuality("assembler_machine".to_string(), 3)));
    assert_eq!(preferred_crafter(&crafters, &r, &prefs[..2].to_vec()), None);
}

#[test]
fn sort_generic_items_by_kind_position_and_name() {
    let mut data = empty_data();
    let mut item_pos = Dict::new();
    item_pos.insert("iron-plate".to_string(), (0usize, 1usize, 0usize));
    item_pos.insert("copper-plate".to_string(), (0, 0, 3));
    data.order_of_entries.insert("item".to_string(), item_pos);
    data.order_of_entries.insert("fluid".to_string(), Dict::new());
    let mut v = vec![
        GenericItem::Custom { name: "b".to_string() },
        GenericItem::Electricity,
        GenericItem::Item(IdWithQuality("iron-plate".to_string(), 1)),
        GenericItem::Fluid { name: "water".to_string(), temperature: [15, 15] },
        GenericItem::Custom { name: "a".to_string() },
        GenericItem::Item(IdWithQuality("iron-plate".to_string(), 0)),
        GenericItem::Heat,
        GenericItem::Item(IdWithQuality("copper-plate".to_string(), 0)),
        GenericItem::ItemFuel { category: "chemical".to_string() },
    ];
    sort_generic_items_owned(&mut v, &data);
    assert_eq!(
        v,
        vec![
            GenericItem::Item(IdWithQuality("copper-plate".to_string(), 0)),
            GenericItem::Item(IdWithQuality("iron-plate".to_string(), 0)),
            GenericItem::Item(IdWithQuality("iron-plate".to_string(), 1)),
            GenericItem::Fluid { name: "water".to_string(), temperature: [15, 15] },
            GenericItem::Heat,
            GenericItem::Electricity,
            GenericItem::ItemFuel { category: "chemical".to_string() },
            GenericItem::Custom { name: "a".to_string() },
            GenericItem::Custom { name: "b".to_string() },
        ]
    );
}

#[test]
fn reset_instances_drops_and_adds_slots() {
    let mut slots = vec![(2usize, 0usize), (0, 5), (1, 0)];
    reset_instances(&mut slots, &vec![2, 0, 1]);
    assert_eq!(slots, vec![(2, 0), (0, 0), (0, 1)]);
    let mut slots = vec![(0usize, 1usize), (0, 0)];
    reset_instances(&mut slots, &vec![2]);
    assert_eq!(slots, vec![(0, 1), (0, 0)]);
    let mut slots = vec![(0usize, 0usize)];
    reset_instances(&mut slots, &vec![]);
    assert!(slots.is_empty());
}

#[test]
fn prototype_accessible_without_table_is_open() {
    let mut proj = empty_project();
    assert!(proj.is_prototype_accessible("item", "anything"));
    let mut t = Dict::new();
    t.insert("iron-plate".to_string(), true);
    t.insert("copper-plate".to_string(), false);
    proj.accessible_prototypes.insert("item".to_string(), t);
    assert!(proj.is_prototype_accessible("item", "iron-plate"));
    assert!(!proj.is_prototype_accessible("item", "copper-plate"));
    assert!(!proj.is_prototype_accessible("item", "steel"));
}

#[test]
fn module_config_and_mining_defaults() {
    let m = ModuleConfig::new();
    assert!(m.modules.is_empty() && m.beacons.is_empty());
    let d = MiningMechanicInstance::default();
    assert_eq!(d.resource, "entity-unknown");
    assert_eq!(d.machine, IdWithQuality("entity-unknown".to_string(), 0));
    assert!(d.module_config.modules.is_empty());
    assert!(d.instance_fuel.is_none());
    let l = ItemLaunchInstance::default();
    assert_eq!(l.rocket, (0, false));
    let c = ItemLaunchInstance { item: IdWithQuality::from_name("satellite"), rocket: (3, true) }.clone();
    assert_eq!(c.item, IdWithQuality::from_name("satellite"));
    assert_eq!(c.rocket, (3, true));
}

#[test]
fn mod_entries_classified() {
    assert_eq!(classify_mod_entry("foo", "foo_1.2.3.zip"), ModEntry::ZipVersion("1.2.3".to_string()));
    assert_eq!(classify_mod_entry("foo", "foo_bar_2.0.1.zip"), ModEntry::ZipVersion("2.0.1".to_string()));
    assert_eq!(classify_mod_entry("foo", "foo_1.0.zip.zip"), ModEntry::ZipVersion("1.0".to_string()));
    assert_eq!(classify_mod_entry("foo", "foo_.zip"), ModEntry::ZipVersion("".to_string()));
    assert_eq!(classify_mod_entry("foo", "foo"), ModEntry::Folder);
    assert_eq!(classify_mod_entry("foo", "foobar_1.zip"), ModEntry::Other);
    assert_eq!(classify_mod_entry("foo", "foo_1.0.tar"), ModEntry::Other);
    assert_eq!(classify_mod_entry("foo", "fo"), ModEntry::Other);
}

#[test]
fn builtin_mods() {
    assert!(is_builtin_mod("base"));
    assert!(is_builtin_mod("space-age"));
    assert!(is_builtin_mod("quality"));
    assert!(is_builtin_mod("elevated-rails"));
    assert!(!is_builtin_mod("my-mod"));
    assert!(!is_builtin_mod("bas"));
}

#[test]
fn folder_version_wins_ties() {
    assert!(folder_version_replaces("1.2.3", "1.2.3"));
    assert!(!folder_version_replaces("1.3.0", "1.2.9"));
    assert!(folder_version_replaces("", "0.0.1"));
    assert!(folder_version_replaces("1.9.0", "1.10.0"));
}

#[test]
fn id_from_generic_item() {
    let item = GenericItem::Item(IdWithQuality("gear".to_string(), 2));
    assert_eq!(IdWithQuality::try_from(&item), Ok(IdWithQuality("gear".to_string(), 2)));
    assert_eq!(IdWithQuality::try_from(item), Ok(IdWithQuality("gear".to_string(), 2)));
    let entity = GenericItem::Entity(IdWithQuality("drill".to_string(), 1));
    assert_eq!(IdWithQuality::try_from(entity), Ok(IdWithQuality("drill".to_string(), 1)));
    assert!(IdWithQuality::try_from(&GenericItem::Heat).is_err());
    assert!(IdWithQuality::try_from(GenericItem::Fluid { name: "water".to_string(), temperature: [15, 15] }).is_err());
}

#[test]
fn generic_item_kind_names() {
    assert_eq!(GenericItem::Item(IdWithQuality::from_name("gear")).to_string(), "物品");
    assert_eq!(GenericItem::Fluid { name: "water".to_string(), temperature: [15, 15] }.to_string(), "流体");
    assert_eq!(GenericItem::Electricity.to_string(), "电能");
    assert_eq!(GenericItem::RocketPayloadStack.to_string(), "火箭堆叠载荷");
    assert_eq!(GenericItem::Custom { name: "x".to_string() }.to_string(), "特殊物品");
}

#[test]
fn refresh_drops_unknown_milestones() {
    let data = unlock_data();
    let mut proj = empty_project();
    proj.tech_milestones = vec![
        ("gone".to_string(), false),
        ("quality-2".to_string(), false),
        ("automation".to_string(), true),
        ("also-gone".to_string(), true),
    ];
    refresh_after_load(&mut proj, &data);
    assert_eq!(
        proj.tech_milestones,
        vec![("quality-2".to_string(), false), ("automation".to_string(), true)]
    );
    assert_eq!(sorted(proj.accessible_technologies.clone()), names(&["assembling", "automation"]));
    assert_eq!(table_names(&proj, "quality"), Some(names(&["uncommon"])));
    assert_eq!(proj.max_quality_level, 1);
}

fn autoplaced_entity(prototype_type: &str, name: &str, control: &str) -> EntityPrototype {
    EntityPrototype {
        base: base(prototype_type, name, "", ""),
        minable: None,
        autoplace: Some(AutoplaceSpecification { control: control.to_string() }),
    }
}

#[test]
fn planet_collects_autoplaced() {
    let mut data = empty_data();
    data.entities = vec![
        autoplaced_entity("resource", "iron-ore", "iron-ore"),
        autoplaced_entity("resource", "stone", "stone"),
        autoplaced_entity("asteroid-chunk", "metallic-asteroid", "none"),
        autoplaced_entity("tree", "tree", "trees"),
        EntityPrototype { base: base("resource", "coal", "", ""), minable: None, autoplace: None },
        autoplaced_entity("resource", "iron-ore", "iron-ore"),
    ];
    data.tiles = vec![
        TilePrototype {
            base: base("tile", "water", "", ""),
            autoplace: Some(AutoplaceSpecification { control: "water".to_string() }),
            fluid: Some("water".to_string()),
        },
        TilePrototype {
            base: base("tile", "deepwater", "", ""),
            autoplace: Some(AutoplaceSpecification { control: "other".to_string() }),
            fluid: Some("water".to_string()),
        },
        TilePrototype {
            base: base("tile", "lava", "", ""),
            autoplace: Some(AutoplaceSpecification { control: "none".to_string() }),
            fluid: Some("lava".to_string()),
        },
        TilePrototype { base: base("tile", "grass", "", ""), autoplace: None, fluid: None },
    ];
    let planet = PlanetPrototype {
        base: base("planet", "nauvis", "", ""),
        entities_require_heating: false,
        pollutant_type: None,
        map_gen_settings: PlanetMapGenSettings {
            autoplace_controls: names(&["iron-ore", "water", "trees"]),
            entity_settings: names(&["metallic-asteroid", "coal"]),
            tile_settings: names(&["deepwater"]),
        },
    };
    let placed = planet.collect_autoplaced(&data);
    assert_eq!(
        placed,
        vec![
            GenericItem::Entity(IdWithQuality("iron-ore".to_string(), 0)),
            GenericItem::Entity(IdWithQuality("metallic-asteroid".to_string(), 0)),
            GenericItem::Fluid { name: "water".to_string(), temperature: [i32::MIN, i32::MAX] },
        ]
    );
}

#[test]
fn sort_keeps_order_of_equal_keys() {
    let mut data = empty_data();
    data.order_of_entries.insert("item".to_string(), Dict::new());
    data.order_of_entries.insert("fluid".to_string(), Dict::new());
    let mut v = vec![
        GenericItem::Fluid { name: "steam".to_string(), temperature: [500, 500] },
        GenericItem::Item(IdWithQuality("zinc".to_string(), 0)),
        GenericItem::Fluid { name: "steam".to_string(), temperature: [165, 165] },
        GenericItem::Item(IdWithQuality("aluminium".to_string(), 0)),
    ];
    sort_generic_items_owned(&mut v, &data);
    assert_eq!(
        v,
        vec![
            GenericItem::Item(IdWithQuality("zinc".to_string(), 0)),
            GenericItem::Item(IdWithQuality("aluminium".to_string(), 0)),
            GenericItem::Fluid { name: "steam".to_string(), temperature: [500, 500] },
            GenericItem::Fluid { name: "steam".to_string(), temperature: [165, 165] },
        ]
    );
    let a = GenericItem::Heat;
    let b = GenericItem::Pollution { name: "spores".to_string() };
    let c = GenericItem::Pollution { name: "pollution".to_string() };
    let mut refs = vec![&b, &a, &c];
    metatorio::item_sort::sort_generic_items(&mut refs, &data);
    assert_eq!(refs, vec![&a, &c, &b]);
}

#[test]
fn recipe_and_project_defaults() {
    let r = metatorio::mechanic::RecipeInstance::default();
    assert_eq!(r.recipe, IdWithQuality("recipe-unknown".to_string(), 0));
    assert_eq!(r.machine, IdWithQuality("entity-unknown".to_string(), 0));
    assert!(r.module_config.modules.is_empty() && r.module_config.beacons.is_empty());
    assert!(r.fuel.is_none());
    let p = ProjectContext::default();
    assert_eq!(p.time_scale, TimeScale::Seconds);
    assert!(p.tech_milestones.is_empty());
    assert!(p.accessible_prototypes.is_empty());
    assert_eq!(p.max_quality_level, 0);
    assert!(p.saved);
    assert_eq!(p.selected_page, ProjectPage::UserContext);
    assert!(metatorio::data::always_true());
}

#[test]
fn default_milestones_keep_availability() {
    let data = unlock_data();
    let before = resolve_dependency(&data.technologies, &vec![("quality-2".to_string(), false)]);
    let mut proj = empty_project();
    proj.tech_milestones = vec![("quality-2".to_string(), false)];
    set_default_milestones(&mut proj, &data);
    assert!(proj.tech_milestones.len() > 1);
    let after = resolve_dependency(&data.technologies, &proj.tech_milestones);
    assert_eq!(sorted(before), sorted(after));
}

#[test]
fn refresh_twice_keeps_milestones() {
    let data = unlock_data();
    let mut proj = empty_project();
    proj.tech_milestones = vec![("gone".to_string(), true), ("automation".to_string(), false)];
    refresh_after_load(&mut proj, &data);
    let once = proj.tech_milestones.clone();
    refresh_after_load(&mut proj, &data);
    assert_eq!(proj.tech_milestones, once);
    assert_eq!(once, vec![("automation".to_string(), false)]);
}

#[test]
fn zip_name_round_trip() {
    assert_eq!(classify_mod_entry("my_mod", "my_mod_0.1.0.zip"), ModEntry::ZipVersion("0.1.0".to_string()));
    assert_eq!(classify_mod_entry("a", "a_2.0.7.zip"), ModEntry::ZipVersion("2.0.7".to_string()));
}

#[test]
fn crafter_and_miner_candidates() {
    let crafters = vec![
        crafter("furnace", &["smelting"]),
        crafter("assembler-1", &["crafting"]),
        crafter("assembler-2", &["crafting"]),
        crafter("assembler-3", &["crafting"]),
    ];
    let r = recipe("gear", vec![], false);
    let mut proj = empty_project();
    assert_eq!(eligible_crafters(&crafters, &r, &vec![], &proj), vec![1, 2, 3]);
    let excluding = vec![IdWithQuality("assembler-2".to_string(), 5)];
    assert_eq!(eligible_crafters(&crafters, &r, &excluding, &proj), vec![1, 3]);
    let mut entities = Dict::new();
    entities.insert("assembler-1".to_string(), true);
    entities.insert("assembler-3".to_string(), false);
    proj.accessible_prototypes.insert("entity".to_string(), entities);
    assert_eq!(eligible_crafters(&crafters, &r, &vec![], &proj), vec![1]);

    let drill = |name: &str, categories: &[&str]| MiningDrillPrototype {
        base: base("mining-drill", name, "", ""),
        resource_categories: names(categories),
        allowed_effects: None,
        allowed_module_categories: None,
        uses_force_mining_productivity_bonus: true,
    };
    let miners = vec![drill("pumpjack", &["basic-fluid"]), drill("electric", &["basic-solid"]), drill("big", &["basic-solid", "hard-solid"])];
    let ore = ResourcePrototype {
        base: EntityPrototype { base: base("resource", "iron-ore", "", ""), minable: None, autoplace: None },
        category: None,
        infinite: false,
    };
    assert_eq!(fitting_miners(&miners, &ore), vec![1, 2]);
    let prefs = vec![IdWithQuality("pumpjack".to_string(), 0), IdWithQuality("big".to_string(), 2)];
    assert_eq!(preferred_miner(&miners, &ore, &prefs), Some(IdWithQuality("big".to_string(), 2)));
    assert_eq!(preferred_miner(&miners, &ore, &prefs[..1].to_vec()), None);
}

#[test]
fn quality_chain_follows_next_links() {
    let keys = names(&["rare", "normal", "uncommon", "epic"]);
    let nexts = vec![
        Some("epic".to_string()),
        Some("uncommon".to_string()),
        Some("rare".to_string()),
        Some("legendary".to_string()),
    ];
    assert_eq!(quality_chain(&keys, &nexts), vec![1, 2, 0, 3]);
    let nexts = vec![None, None, None, None];
    assert_eq!(quality_chain(&keys, &nexts), vec![1]);
}

#[test]
fn build_order_info_derives_and_lists() {
    let mut data = empty_data();
    data.groups.insert("intermediates".to_string(), base("item-group", "intermediates", "c", ""));
    data.subgroups.insert(
        "parts".to_string(),
        ItemSubgroup { base: base("item-subgroup", "parts", "a", ""), group: "intermediates".to_string() },
    );
    let mut gear = item("item", "iron-gear-wheel", None);
    gear.base = base("item", "iron-gear-wheel", "b", "parts");
    let mut plate = item("item", "iron-plate", None);
    plate.base = base("item", "iron-plate", "a", "parts");
    let mut furnace_item = item("item", "stone-furnace", Some("stone-furnace"));
    furnace_item.base = base("item", "stone-furnace", "z", "parts");
    data.items = vec![gear, plate, furnace_item];
    data.recipes = vec![recipe("iron-gear-wheel", vec![item_result("iron-gear-wheel")], true)];
    data.entities = vec![EntityPrototype { base: base("furnace", "stone-furnace", "", ""), minable: None, autoplace: None }];
    let data = data.build_order_info();
    assert_eq!(data.recipes[0].base.order, "b");
    assert_eq!(data.recipes[0].base.subgroup, "parts");
    assert_eq!(data.entities[0].base.order, "z");
    assert_eq!(data.entities[0].base.subgroup, "parts");
    let items = data.ordered_entries.get("item").unwrap();
    assert_eq!(
        *items,
        vec![(
            "intermediates".to_string(),
            vec![("parts".to_string(), names(&["iron-plate", "iron-gear-wheel", "stone-furnace"]))]
        )]
    );
    assert_eq!(data.order_of_entries.get("item").unwrap().get("iron-gear-wheel"), Some(&(0, 0, 1)));
    assert_eq!(data.order_of_entries.get("recipe").unwrap().get("iron-gear-wheel"), Some(&(0, 0, 0)));
    assert_eq!(data.order_of_entries.get("entity").unwrap().get("stone-furnace"), Some(&(0, 0, 0)));
    for key in ["fuel-category", "airborne-pollutant", "recipe-category", "fluid", "technology"] {
        assert!(data.ordered_entries.get(key).unwrap().is_empty());
        assert!(data.order_of_entries.get(key).unwrap().is_empty());
    }
}

#[test]
fn mod_scan_step_follows_each_entry() {
    let zip = ModEntry::ZipVersion("1.1.0".to_string());
    assert_eq!(mod_scan_step("2.0.0", &zip, None), ("1.1.0".to_string(), false));
    assert_eq!(mod_scan_step("1.0.0", &ModEntry::Folder, Some("1.2.0")), ("1.2.0".to_string(), true));
    assert_eq!(mod_scan_step("1.2.0", &ModEntry::Folder, Some("1.2.0")), ("1.2.0".to_string(), true));
    assert_eq!(mod_scan_step("1.3.0", &ModEntry::Folder, Some("1.2.0")), ("1.3.0".to_string(), true));
    assert_eq!(mod_scan_step("1.0.0", &ModEntry::Folder, None), ("1.0.0".to_string(), false));
    assert_eq!(mod_scan_step("1.0.0", &ModEntry::Other, None), ("1.0.0".to_string(), false));
}

#[test]
fn mod_version_missing_only_when_enabled_and_empty() {
    let m = |version: &str, enabled: bool| ModInfo { name: "foo".to_string(), version: version.to_string(), enabled };
    assert!(m("", true).version_missing());
    assert!(!m("", false).version_missing());
    assert!(!m("1.0.0", true).version_missing());
}

#[test]
fn locks_spread_end_refuses_a_lock_into_a_cycle() {
    let techs = vec![
        tech("a", &["b", "c"], vec![]),
        tech("b", &["a"], vec![]),
        tech("c", &[], vec![]),
        tech("d", &["c"], vec![]),
    ];
    assert!(!locks_spread_end(&techs, &vec![("c".to_string(), false)]));
    assert!(locks_spread_end(&techs, &vec![("c".to_string(), true)]));
    assert!(locks_spread_end(&techs, &vec![("d".to_string(), false)]));
    assert!(locks_spread_end(&techs, &vec![]));
}

#[test]
fn locks_spread_end_allows_a_cycle_no_lock_reaches() {
    let techs = vec![
        tech("a", &["b"], vec![]),
        tech("b", &["a"], vec![]),
        tech("c", &[], vec![]),
        tech("d", &["c"], vec![]),
    ];
    assert!(locks_spread_end(&techs, &vec![("c".to_string(), false)]));
}
