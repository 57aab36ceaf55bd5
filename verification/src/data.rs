use vstd::prelude::*;
use vstd::string::StrSliceExecFns;

use crate::common::{Dict, IdWithQuality, ItemSubgroup, PrototypeBase};
use crate::graph::TechnologyPrototype;
use crate::model::{
    CraftingMachinePrototype, EntityPrototype, FluidPrototype, ItemPrototype, MiningDrillPrototype,
    RecipePrototype, ResourcePrototype, TilePrototype,
};
use crate::order::{OrderInfo, ReverseOrderInfo};

verus! {

/// A mod's name, its version and whether it is enabled.
#[derive(Debug, Clone)]
pub struct ModInfo {
    pub name: String,
    pub version: String,
    pub enabled: bool,
}

impl ModInfo {
    /// An enabled mod whose version the mod list leaves out: its version
    /// is looked for on disk.
    pub fn version_missing(&self) -> (r: bool)
        ensures
            r == (self.enabled && self.version@.len() == 0),
    {
        self.enabled && self.version.as_str().unicode_len() == 0
    }
}

/// The default of flags that hold unless the data says otherwise.
pub fn always_true() -> (r: bool)
    ensures
        r,
{
    true
}

/// The lowest and highest temperature that a fluid entry stands for: the
/// whole range of `i32`.
pub fn i32_inf_range() -> (r: [i32; 2])
    ensures
        r@ == seq![i32::MIN, i32::MAX],
{
    let r = [i32::MIN, i32::MAX];
    proof {
        assert(r@ =~= seq![i32::MIN, i32::MAX]);
    }
    r
}

/// Anything that flows through a factory.
#[derive(Debug, Clone, Hash, PartialEq, Eq)]
pub enum GenericItem {
    Item(IdWithQuality),
    /// A fluid with a temperature range; the temperatures are whole degrees.
    Fluid { name: String, temperature: [i32; 2] },
    Entity(IdWithQuality),
    Heat,
    Electricity,
    /// Heat carried by a fluid; no filter stands for any fluid.
    FluidHeat { filter: Option<String> },
    /// A fluid burnt as fuel; no filter stands for any fluid.
    FluidFuel { filter: Option<String> },
    ItemFuel { category: String },
    RocketPayloadWeight,
    RocketPayloadStack,
    Pollution { name: String },
    Custom { name: String },
}

pub open spec fn is_energy_item(item: GenericItem) -> bool {
    match item {
        GenericItem::Heat | GenericItem::Electricity | GenericItem::FluidFuel { .. }
        | GenericItem::ItemFuel { .. } | GenericItem::FluidHeat { .. } => true,
        _ => false,
    }
}

pub open spec fn unknown_item_name() -> Seq<char> {
    seq!['i', 't', 'e', 'm', '-', 'u', 'n', 'k', 'n', 'o', 'w', 'n']
}

impl GenericItem {
    /// Whether this stands for energy: heat, electricity, or fuel.
    pub fn is_energy(&self) -> (r: bool)
        ensures
            r == is_energy_item(*self),
    {
        match self {
            GenericItem::Heat | GenericItem::Electricity | GenericItem::FluidFuel { .. }
            | GenericItem::ItemFuel { .. } | GenericItem::FluidHeat { .. } => true,
            _ => false,
        }
    }

    /// An equal value.
    pub fn duplicate(&self) -> (r: GenericItem)
        ensures
            r == *self,
    {
        match self {
            GenericItem::Item(id) => GenericItem::Item(id.duplicate()),
            GenericItem::Fluid { name, temperature } => GenericItem::Fluid {
                name: name.clone(),
                temperature: *temperature,
            },
            GenericItem::Entity(id) => GenericItem::Entity(id.duplicate()),
            GenericItem::Heat => GenericItem::Heat,
            GenericItem::Electricity => GenericItem::Electricity,
            GenericItem::FluidHeat { filter } => GenericItem::FluidHeat {
                filter: match filter {
                    Some(f) => Some(f.clone()),
                    None => None,
                },
            },
            GenericItem::FluidFuel { filter } => GenericItem::FluidFuel {
                filter: match filter {
                    Some(f) => Some(f.clone()),
                    None => None,
                },
            },
            GenericItem::ItemFuel { category } => GenericItem::ItemFuel { category: category.clone() },
            GenericItem::RocketPayloadWeight => GenericItem::RocketPayloadWeight,
            GenericItem::RocketPayloadStack => GenericItem::RocketPayloadStack,
            GenericItem::Pollution { name } => GenericItem::Pollution { name: name.clone() },
            GenericItem::Custom { name } => GenericItem::Custom { name: name.clone() },
        }
    }
}

/// The name of an item's kind as shown to the user; the internal name
/// would say nothing.
pub open spec fn kind_name(g: GenericItem) -> Seq<char> {
    match g {
        GenericItem::Item(..) => "物品"@,
        GenericItem::Fluid { .. } => "流体"@,
        GenericItem::Entity(..) => "实体"@,
        GenericItem::Heat => "热能"@,
        GenericItem::Electricity => "电能"@,
        GenericItem::FluidHeat { .. } => "流体热源"@,
        GenericItem::FluidFuel { .. } => "流体燃料"@,
        GenericItem::ItemFuel { .. } => "物品燃料"@,
        GenericItem::RocketPayloadWeight => "火箭重量载荷"@,
        GenericItem::RocketPayloadStack => "火箭堆叠载荷"@,
        GenericItem::Pollution { .. } => "污染"@,
        GenericItem::Custom { .. } => "特殊物品"@,
    }
}

impl GenericItem {
    /// The name of the item's kind, as shown to the user.
    pub fn to_string(&self) -> (r: String)
        ensures
            r@ == kind_name(*self),
    {
        match self {
            GenericItem::Item(..) => "物品".to_string(),
            GenericItem::Fluid { .. } => "流体".to_string(),
            GenericItem::Entity(..) => "实体".to_string(),
            GenericItem::Heat => "热能".to_string(),
            GenericItem::Electricity => "电能".to_string(),
            GenericItem::FluidHeat { .. } => "流体热源".to_string(),
            GenericItem::FluidFuel { .. } => "流体燃料".to_string(),
            GenericItem::ItemFuel { .. } => "物品燃料".to_string(),
            GenericItem::RocketPayloadWeight => "火箭重量载荷".to_string(),
            GenericItem::RocketPayloadStack => "火箭堆叠载荷".to_string(),
            GenericItem::Pollution { .. } => "污染".to_string(),
            GenericItem::Custom { .. } => "特殊物品".to_string(),
        }
    }
}

/// The name and quality of an item or an entity; other kinds have none.
pub open spec fn item_id(g: GenericItem) -> Option<IdWithQuality> {
    match g {
        GenericItem::Item(id) => Some(id),
        GenericItem::Entity(id) => Some(id),
        _ => None,
    }
}

impl TryFrom<GenericItem> for IdWithQuality {
    type Error = &'static str;

    /// The name and quality of an item or an entity.
    fn try_from(value: GenericItem) -> (r: Result<Self, Self::Error>) {
        match value {
            GenericItem::Item(id) => Ok(id),
            GenericItem::Entity(id) => Ok(id),
            _ => Err("not an item or an entity"),
        }
    }
}

impl vstd::std_specs::convert::TryFromSpecImpl<GenericItem> for IdWithQuality {
    open spec fn obeys_try_from_spec() -> bool {
        true
    }

    open spec fn try_from_spec(v: GenericItem) -> Result<Self, &'static str> {
        match item_id(v) {
            Some(id) => Ok(id),
            None => Err("not an item or an entity"),
        }
    }
}

impl<'a> TryFrom<&'a GenericItem> for IdWithQuality {
    type Error = &'static str;

    /// The name and quality of an item or an entity.
    fn try_from(value: &'a GenericItem) -> (r: Result<Self, Self::Error>) {
        match value {
            GenericItem::Item(id) => Ok(id.duplicate()),
            GenericItem::Entity(id) => Ok(id.duplicate()),
            _ => Err("not an item or an entity"),
        }
    }
}

impl<'a> vstd::std_specs::convert::TryFromSpecImpl<&'a GenericItem> for IdWithQuality {
    open spec fn obeys_try_from_spec() -> bool {
        true
    }

    open spec fn try_from_spec(v: &'a GenericItem) -> Result<Self, &'static str> {
        match item_id(*v) {
            Some(id) => Ok(id),
            None => Err("not an item or an entity"),
        }
    }
}

impl Default for GenericItem {
    fn default() -> (r: Self)
        ensures
            r matches GenericItem::Item(id) && id.0@ == unknown_item_name() && id.1 == 0,
    {
        let r = GenericItem::Item(IdWithQuality::from_name("item-unknown"));
        proof {
            reveal_strlit("item-unknown");
            assert(unknown_item_name() =~= "item-unknown"@);
        }
        r
    }
}

/// A generic item at one of the places where a factory stands.
#[derive(Debug, Clone, Default, Hash, PartialEq, Eq)]
pub struct GenericItemWithLocation {
    pub base: GenericItem,
    pub location: u16,
}

/// The game data that naming, ordering and unlocking read.
pub struct DataContext {
    /// Enabled mods: name and version.
    pub mods: Vec<(String, String)>,
    pub technologies: Vec<TechnologyPrototype>,
    pub fuel_categories: Vec<PrototypeBase>,
    pub airborne_pollutants: Vec<PrototypeBase>,
    /// Quality levels, lowest first.
    pub qualities: Vec<PrototypeBase>,
    pub items: Vec<ItemPrototype>,
    pub entities: Vec<EntityPrototype>,
    pub fluids: Vec<FluidPrototype>,
    pub recipes: Vec<RecipePrototype>,
    pub crafters: Vec<CraftingMachinePrototype>,
    pub recipe_categories: Vec<PrototypeBase>,
    pub resources: Vec<ResourcePrototype>,
    pub miners: Vec<MiningDrillPrototype>,
    pub tiles: Vec<TilePrototype>,
    /// Display names by category, then by internal name.
    pub localized_name: Dict<Dict<String>>,
    /// Descriptions by category, then by internal name.
    pub localized_description: Dict<Dict<String>>,
    pub groups: Dict<PrototypeBase>,
    pub subgroups: Dict<ItemSubgroup>,
    /// For each category, its entries in display order.
    pub ordered_entries: Dict<OrderInfo>,
    /// For each category, where each entry stands in display order.
    pub order_of_entries: Dict<ReverseOrderInfo>,
}

pub open spec fn unlocalized_suffix() -> Seq<char> {
    seq![' ', '(', 'u', 'n', 'l', 'o', 'c', 'a', 'l', 'i', 'z', 'e', 'd', ')']
}

/// The name shown for `key` of `category`: its translation, or the key
/// followed by `" (unlocalized)"`.
pub open spec fn display_name(
    names: Map<Seq<char>, Dict<String>>,
    category: Seq<char>,
    key: Seq<char>,
) -> Seq<char> {
    let table = names[category]@;
    if table.contains_key(key) {
        table[key]@
    } else {
        key + unlocalized_suffix()
    }
}

impl DataContext {
    /// The name to show for `key` in `category`. The category must have a
    /// table of names.
    pub fn get_display_name(&self, category: &str, key: &str) -> (r: String)
        requires
            self.localized_name@.contains_key(category@),
        ensures
            r@ == display_name(self.localized_name@, category@, key@),
    {
        let table = self.localized_name.get(category).unwrap();
        match table.get(key) {
            Some(name) => name.clone(),
            None => {
                let mut r = key.to_string();
                r.append(" (unlocalized)");
                proof {
                    reveal_strlit(" (unlocalized)");
                    assert(" (unlocalized)"@ =~= unlocalized_suffix());
                }
                r
            },
        }
    }
}

} // verus!
