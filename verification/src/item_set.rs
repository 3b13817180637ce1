//! A labeled group of recommended items.

use vstd::prelude::*;

verus! {

/// One labeled item group of a build. Order matters: the first group is
/// always the starting items; later groups are progressively later
/// recommendations and positional alternates.
#[derive(Debug, Clone)]
pub struct ItemSet {
    pub name: String,
    pub items: Vec<i64>,
}

} // verus!
