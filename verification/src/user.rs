use vstd::prelude::*;

use crate::common::Dict;

verus! {

/// The time unit in which amounts are shown.
#[derive(Debug, Clone, Copy, PartialEq, Eq, Default, Structural)]
#[non_exhaustive]
pub enum TimeScale {
    #[default]
    Seconds,
    Minutes,
    Hours,
}

/// The page of a project that is open.
#[derive(Debug, Default, Clone, Copy, PartialEq, Eq, PartialOrd, Ord, Structural)]
pub enum ProjectPage {
    /// The settings of one factory.
    Index(usize),
    /// The user's preferences.
    #[default]
    UserContext,
}

/// A project's preferences and what its technology milestones unlock.
pub struct ProjectContext {
    pub time_scale: TimeScale,
    /// Technology milestones: a `false` entry keeps the technology, and all
    /// that depend on it, locked.
    pub tech_milestones: Vec<(String, bool)>,
    pub accessible_technologies: Vec<String>,
    /// For each category, the prototypes that have been unlocked.
    pub accessible_prototypes: Dict<Dict<bool>>,
    pub max_quality_level: u8,
    pub saved: bool,
    pub selected_page: ProjectPage,
}

impl Default for ProjectContext {
    /// Amounts per second, no milestones, nothing computed yet, saved,
    /// and the preferences open.
    fn default() -> (r: Self)
        ensures
            r.time_scale == TimeScale::Seconds,
            r.tech_milestones@.len() == 0,
            r.accessible_technologies@.len() == 0,
            r.accessible_prototypes@ == Map::<Seq<char>, Dict<bool>>::empty(),
            r.max_quality_level == 0,
            r.saved,
            r.selected_page == ProjectPage::UserContext,
    {
        ProjectContext {
            time_scale: TimeScale::Seconds,
            tech_milestones: Vec::new(),
            accessible_technologies: Vec::new(),
            accessible_prototypes: Dict::new(),
            max_quality_level: 0,
            saved: true,
            selected_page: ProjectPage::UserContext,
        }
    }
}

/// Whether `name` of `category` may be used: a category without a table is
/// open to all; otherwise the prototype must be listed and marked.
pub open spec fn prototype_accessible(
    accessible: Map<Seq<char>, Dict<bool>>,
    category: Seq<char>,
    name: Seq<char>,
) -> bool {
    if accessible.contains_key(category) {
        let table = accessible[category]@;
        table.contains_key(name) && table[name]
    } else {
        true
    }
}

impl ProjectContext {
    pub fn is_prototype_accessible(&self, category: &str, name: &str) -> (r: bool)
        ensures
            r == prototype_accessible(self.accessible_prototypes@, category@, name@),
    {
        if let Some(category_dict) = self.accessible_prototypes.get(category) {
            if let Some(accessible) = category_dict.get(name) {
                *accessible
            } else {
                false
            }
        } else {
            true
        }
    }
}

} // verus!
