use vstd::prelude::*;

verus! {

/// The page of a project view that is open.
#[derive(Debug, Clone, Copy, PartialEq, Eq, Structural)]
pub enum SelectedPage {
    /// The planner of one factory.
    Planner(usize),
    /// The project's preferences.
    Settings,
}

/// The text typed to filter a selector's entries.
#[derive(Debug, Clone, Default)]
pub struct FilterString(pub String);

/// The group and subgroup tabs open in a selector.
#[derive(Debug, Clone, Copy, Default, PartialEq, Eq, Structural)]
pub struct SelectorStorage {
    pub group: usize,
    pub subgroup: usize,
}

/// What a selector of items with quality has chosen so far.
#[derive(Debug, Clone, Default)]
pub struct ItemWithQualitySelectorStorage {
    pub selected_item: Option<String>,
    pub selected_quality: Option<u8>,
}

/// What an item selector shows and has chosen.
#[derive(Debug, Clone, Default)]
pub struct ItemSelectorStorage {
    pub current_type: u8,
    pub group: usize,
    pub subgroup: usize,
    pub index: usize,
    pub selected_item: Option<String>,
}

/// The view that the main window shows.
#[derive(Debug, Clone, Copy, PartialEq, Eq, Structural)]
pub enum SelectedSubview {
    Title,
    Creator(usize),
    Planner(usize),
    FontLicense,
    Logs,
}

/// What the main window asks of the network.
#[derive(Debug, Clone, Copy, PartialEq, Eq, Structural)]
pub enum NetworkRequest {
    FetchReleases,
    SelfUpdate,
}

} // verus!
