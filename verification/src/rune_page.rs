//! A normalized rune page.

use vstd::prelude::*;

verus! {

/// One normalized rune page: the two tree IDs, the nine rune IDs in
/// canonical slot order (four primary picks, up to two secondary picks,
/// three stat shards), and the fixed-point confidence score.
#[derive(Debug, Clone)]
pub struct RunePage {
    pub runes: Vec<i64>,
    pub primary_tree: i64,
    pub secondary_tree: i64,
    /// Wilson lower-bound confidence, scaled by one million.
    pub win_rate: u64,
}

impl RunePage {
    /// A well-formed page holds exactly nine rune IDs and a score within
    /// the fixed-point scale.
    pub open spec fn well_formed(self) -> bool {
        &&& self.runes@.len() == 9
        &&& 0 <= self.win_rate <= 1_000_000
    }
}

} // verus!
