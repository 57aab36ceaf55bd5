use vstd::prelude::*;

pub mod common;
pub mod data;
pub mod effect;
pub mod filter;
pub mod graph;
pub mod item_sort;
pub mod mechanic;
pub mod milestone;
pub mod mod_version;
pub mod model;
pub mod order;
pub mod ordering;
pub mod planet;
pub mod planner;
pub mod quality_chain;
pub mod text;
pub mod unlock;
pub mod user;
pub mod version;
pub mod view_state;

verus! {
} // verus!
