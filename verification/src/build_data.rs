//! One normalized build record for a character and position.

use vstd::prelude::*;

use crate::item_set::ItemSet;
use crate::position::Position;
use crate::rune_page::RunePage;
use crate::summoner_spells::SummonerSpells;

verus! {

/// A fully normalized build: the position it applies to, the rune page,
/// the ordered item groups, the skill order, and the spell pair. Builds
/// for one character are ranked by descending confidence
/// (`rune_page.win_rate`), and two builds count as the same selection
/// when their positions agree.
#[derive(Debug, Clone)]
pub struct BuildData {
    pub position: Position,
    pub rune_page: RunePage,
    pub item_sets: Vec<ItemSet>,
    pub skill_order: String,
    pub summoner_spells: SummonerSpells,
}

impl BuildData {
    /// A well-formed build carries a well-formed rune page.
    pub open spec fn well_formed(self) -> bool {
        self.rune_page.well_formed()
    }
}

} // verus!
