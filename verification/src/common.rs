use vstd::prelude::*;
use vstd::hash_map::StringHashMap;

verus! {

/// A table keyed by prototype name.
pub type Dict<T> = StringHashMap<T>;

/// A prototype named together with its quality level.
#[derive(Debug, Clone, Default, PartialEq, Eq, Hash)]
pub struct IdWithQuality(pub String, pub u8);

impl IdWithQuality {
    /// The name at the lowest quality level.
    pub fn from_name(s: &str) -> (r: IdWithQuality)
        ensures
            r.0@ == s@,
            r.1 == 0,
    {
        IdWithQuality(s.to_string(), 0)
    }

    /// Another value with the same name and quality.
    pub fn duplicate(&self) -> (r: IdWithQuality)
        ensures
            r == *self,
    {
        IdWithQuality(self.0.clone(), self.1)
    }
}

impl From<String> for IdWithQuality {
    fn from(s: String) -> (r: IdWithQuality) {
        IdWithQuality(s, 0)
    }
}

impl vstd::std_specs::convert::FromSpecImpl<String> for IdWithQuality {
    open spec fn obeys_from_spec() -> bool {
        true
    }

    open spec fn from_spec(s: String) -> IdWithQuality {
        IdWithQuality(s, 0)
    }
}

impl From<(String, u8)> for IdWithQuality {
    fn from(t: (String, u8)) -> (r: IdWithQuality) {
        IdWithQuality(t.0, t.1)
    }
}

impl vstd::std_specs::convert::FromSpecImpl<(String, u8)> for IdWithQuality {
    open spec fn obeys_from_spec() -> bool {
        true
    }

    open spec fn from_spec(t: (String, u8)) -> IdWithQuality {
        IdWithQuality(t.0, t.1)
    }
}

/// An RGBA colour.
#[derive(Debug, Clone, Copy, PartialEq, Eq)]
pub struct Color(pub u8, pub u8, pub u8, pub u8);

/// The fields of a prototype that naming and ordering read.
#[derive(Debug, Clone, Default)]
pub struct PrototypeBase {
    /// The prototype's type name (`type` in the game's data).
    pub prototype_type: String,
    /// Internal name.
    pub name: String,
    /// Sort key within the subgroup.
    pub order: String,
    /// Name of the subgroup it belongs to.
    pub subgroup: String,
    /// Hidden by default.
    pub hidden: bool,
    /// Counts as a parameter.
    pub parameter: bool,
}

/// Types that carry a [`PrototypeBase`].
pub trait HasPrototypeBase {
    spec fn prototype_base(&self) -> PrototypeBase;

    fn base(&self) -> (b: &PrototypeBase)
        ensures
            *b == self.prototype_base(),
    ;
}

impl HasPrototypeBase for PrototypeBase {
    open spec fn prototype_base(&self) -> PrototypeBase {
        *self
    }

    fn base(&self) -> (b: &PrototypeBase) {
        self
    }
}

/// An item subgroup: a prototype base and the group that holds it.
#[derive(Debug, Clone, Default)]
pub struct ItemSubgroup {
    pub base: PrototypeBase,
    /// Name of the group.
    pub group: String,
}

impl HasPrototypeBase for ItemSubgroup {
    open spec fn prototype_base(&self) -> PrototypeBase {
        self.base
    }

    fn base(&self) -> (b: &PrototypeBase) {
        &self.base
    }
}

/// How a fluid box takes part in production.
#[derive(Debug, Clone, Copy, PartialEq, Eq, Default)]
pub enum FluidIOMode {
    #[default]
    Unused,
    Input,
    InputOutput,
    Output,
}

} // verus!
