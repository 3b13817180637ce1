//! The official rune-tree reference data, used to validate and order
//! vendor rune picks. Loaded once per patch version and never mutated.

use vstd::prelude::*;

verus! {

/// The full reference data: every rune tree of the current patch.
#[derive(Debug, Clone)]
pub struct RunesData {
    pub runes_data: Vec<RuneData>,
}

/// One rune tree: an ID and its ordered slots.
#[derive(Debug, Clone)]
pub struct RuneData {
    pub id: i64,
    pub key: String,
    pub icon: String,
    pub name: String,
    pub slots: Vec<Slot>,
}

/// One slot of a tree: the set of valid runes for that slot.
#[derive(Debug, Clone)]
pub struct Slot {
    pub runes: Vec<Rune>,
}

/// One rune of a slot.
#[derive(Debug, Clone)]
pub struct Rune {
    pub id: i64,
    pub key: String,
    pub icon: String,
    pub name: String,
    pub short_desc: String,
    pub long_desc: String,
}

/// Whether `id` is one of the valid rune IDs of `slot`.
pub open spec fn slot_contains(slot: Slot, id: i64) -> bool {
    exists|k: int| 0 <= k < slot.runes@.len() && slot.runes@[k].id == id
}

/// The first tree in `trees` with ID `id`, if any.
pub open spec fn find_tree_spec(trees: Seq<RuneData>, id: i64) -> Option<RuneData>
    decreases trees.len(),
{
    if trees.len() == 0 {
        None
    } else if trees[0].id == id {
        Some(trees[0])
    } else {
        find_tree_spec(trees.drop_first(), id)
    }
}

impl Slot {
    /// Whether `id` is one of the valid rune IDs of this slot.
    pub fn has_rune(&self, id: i64) -> (r: bool)
        ensures
            r == slot_contains(*self, id),
    {
        for k in 0..self.runes.len()
            invariant
                forall|j: int| 0 <= j < k ==> self.runes@[j].id != id,
        {
            if self.runes[k].id == id {
                return true;
            }
        }
        false
    }
}

impl RunesData {
    /// The first tree with ID `id`, if any.
    pub fn find_tree(&self, id: i64) -> (r: Option<&RuneData>)
        ensures
            r matches Some(t) ==> find_tree_spec(self.runes_data@, id) == Some(*t),
            r is None ==> find_tree_spec(self.runes_data@, id) is None,
    {
        let ghost all = self.runes_data@;
        proof {
            assert(all.skip(0) =~= all);
        }
        for k in 0..self.runes_data.len()
            invariant
                all == self.runes_data@,
                find_tree_spec(all, id) == find_tree_spec(all.skip(k as int), id),
        {
            proof {
                assert(all.skip(k as int).len() > 0);
                assert(all.skip(k as int)[0] == all[k as int]);
            }
            if self.runes_data[k].id == id {
                return Some(&self.runes_data[k]);
            }
            proof {
                assert(all.skip(k as int).drop_first() =~= all.skip(k as int + 1));
            }
        }
        proof {
            assert(all.skip(all.len() as int).len() == 0);
        }
        None
    }
}

} // verus!
