//! The shipped category lists, and the person's own copy of them.
//!
//! Cairn ships a starting point. On first run it is copied into the person's
//! own data, and from then on the copy is theirs: Cairn never writes over an
//! edited list, and never quietly re-adds something someone took out.
use vstd::prelude::*;

verus! {

/// Where the person's copies live, under Cairn's data directory.
pub const CATEGORY_DIRECTORY: &'static str = "categories";

/// A category list as shipped.
#[derive(Clone, PartialEq, Eq, Debug)]
pub struct CategorySeed {
    pub id: String,
    pub label: String,
    pub note: String,
    pub domains: Vec<String>,
}

/// A category list as the person has it.
#[derive(Clone, PartialEq, Eq, Debug)]
pub struct CategoryList {
    pub id: String,
    pub label: String,
    pub domains: Vec<String>,
    /// True once the person has changed their copy; the shipped list is
    /// never applied over it again.
    pub edited: bool,
}

impl CategoryList {
    /// The person's first copy of a shipped list: the same list, not yet
    /// edited.
    pub fn from_seed(seed: CategorySeed) -> (list: CategoryList)
        ensures
            list.id == seed.id,
            list.label == seed.label,
            list.domains == seed.domains,
            !list.edited,
    {
        CategoryList { id: seed.id, label: seed.label, domains: seed.domains, edited: false }
    }
}

} // verus!
