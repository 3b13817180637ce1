//! A recommended pair of summoner spells.

use vstd::prelude::*;

verus! {

/// The two summoner spells a build recommends, in slot order.
#[derive(Debug, Clone, Copy, PartialEq, Eq, Structural)]
pub struct SummonerSpells {
    pub spell1_id: i64,
    pub spell2_id: i64,
}

impl SummonerSpells {
    /// Builds the pair from the first and second recommended spell.
    pub fn new(first: i64, second: i64) -> (r: SummonerSpells)
        ensures
            r.spell1_id == first,
            r.spell2_id == second,
    {
        SummonerSpells { spell1_id: first, spell2_id: second }
    }
}

} // verus!
