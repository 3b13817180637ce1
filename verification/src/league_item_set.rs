//! The exported item-set document the game client imports.
//!
//! A pure projection of a build's item groups: one block per group,
//! each item with a count of one, the skill order appended to the first
//! group's label by the exporter.

use vstd::prelude::*;
use vstd::string::StringExecFns;

use crate::build_data::BuildData;
use crate::ddragon_champions::Champion;
use crate::item_set::ItemSet;
use crate::position::Position;
use crate::util::dec_str_of_i64;

verus! {

/// One exported document: scope markers, a sort rank, and the blocks.
#[derive(Debug, Clone)]
pub struct LeagueItemSet {
    pub title: String,
    pub type_field: String,
    pub map: String,
    pub mode: String,
    pub priority: bool,
    pub sortrank: i64,
    pub blocks: Vec<Block>,
    pub champion_key: String,
}

/// One block of an exported document: a type label and its items.
#[derive(Debug, Clone)]
pub struct Block {
    pub rec_math: bool,
    pub min_summoner_level: i64,
    pub max_summoner_level: i64,
    pub show_if_summoner_spell: String,
    pub hide_if_summoner_spell: String,
    pub type_field: String,
    pub items: Vec<Item>,
}

/// One item entry of a block.
#[derive(Debug, Clone)]
pub struct Item {
    pub id: String,
    pub count: i64,
}

impl Default for LeagueItemSet {
    /// An empty custom document scoped to any map and mode.
    fn default() -> (r: LeagueItemSet)
        ensures
            r.title@ == Seq::<char>::empty(),
            r.type_field@ == "custom"@,
            r.map@ == "any"@,
            r.mode@ == "any"@,
            !r.priority,
            r.sortrank == 9999999999i64,
            r.blocks@ == Seq::<Block>::empty(),
            r.champion_key@ == Seq::<char>::empty(),
    {
        LeagueItemSet {
            title: String::new(),
            type_field: "custom".to_owned(),
            map: "any".to_owned(),
            mode: "any".to_owned(),
            priority: false,
            sortrank: 9999999999,
            blocks: Vec::new(),
            champion_key: String::new(),
        }
    }
}

/// A block with every field at its exported default.
pub open spec fn block_defaults(b: Block) -> bool {
    &&& !b.rec_math
    &&& b.min_summoner_level == -1i64
    &&& b.max_summoner_level == -1i64
    &&& b.show_if_summoner_spell@ == Seq::<char>::empty()
    &&& b.hide_if_summoner_spell@ == Seq::<char>::empty()
}

impl Default for Block {
    /// An unlabeled, unconditional block with no items.
    fn default() -> (r: Block)
        ensures
            block_defaults(r),
            r.type_field@ == Seq::<char>::empty(),
            r.items@ == Seq::<Item>::empty(),
    {
        Block {
            rec_math: false,
            min_summoner_level: -1,
            max_summoner_level: -1,
            show_if_summoner_spell: String::new(),
            hide_if_summoner_spell: String::new(),
            type_field: String::new(),
            items: Vec::new(),
        }
    }
}

/// What one exported block holds for one item group: the group's label
/// as its type, one entry per item with a count of one, everything else
/// at its default.
pub open spec fn block_matches(b: Block, s: ItemSet) -> bool {
    &&& block_defaults(b)
    &&& b.type_field@ == s.name@
    &&& b.items@.len() == s.items@.len()
    &&& forall|j: int|
        0 <= j < s.items@.len() ==> {
            &&& (#[trigger] b.items@[j]).id@ == dec_str_of_i64(s.items@[j])
            &&& b.items@[j].count == 1
        }
}

impl Item {
    /// One exported item entry: the item ID as text, a count of one.
    pub fn from(item_id: i64) -> (r: Item)
        ensures
            r.id@ == dec_str_of_i64(item_id),
            r.count == 1,
    {
        let mut id = String::new();
        crate::util::append_i64(&mut id, item_id);
        proof {
            assert(id@ =~= dec_str_of_i64(item_id));
        }
        Item { id, count: 1 }
    }
}

impl Block {
    /// One exported block for one item group.
    pub fn from(item_set: &ItemSet) -> (r: Block)
        ensures
            block_matches(r, *item_set),
    {
        let mut items: Vec<Item> = Vec::new();
        for j in 0..item_set.items.len()
            invariant
                items@.len() == j,
                forall|k: int|
                    0 <= k < j ==> {
                        &&& (#[trigger] items@[k]).id@ == dec_str_of_i64(item_set.items@[k])
                        &&& items@[k].count == 1
                    },
        {
            items.push(Item::from(item_set.items[j]));
        }
        Block {
            rec_math: false,
            min_summoner_level: -1,
            max_summoner_level: -1,
            show_if_summoner_spell: String::new(),
            hide_if_summoner_spell: String::new(),
            type_field: item_set.name.clone(),
            items,
        }
    }
}

impl LeagueItemSet {
    /// Projects one build into the exported document: a marker-prefixed
    /// title naming the champion and position, one block per item
    /// group, and the champion's textual ID as the key.
    pub fn from_build_data(build_data: &BuildData, champion: &Champion) -> (r: LeagueItemSet)
        ensures
            r.title@ == "[LH] - "@ + champion.name@ + " "@ + build_data.position.name_spec(),
            r.type_field@ == "custom"@,
            r.map@ == "any"@,
            r.mode@ == "any"@,
            !r.priority,
            r.sortrank == 9999999999i64,
            r.champion_key@ == champion.id@,
            r.blocks@.len() == build_data.item_sets@.len(),
            forall|i: int|
                0 <= i < build_data.item_sets@.len() ==> block_matches(
                    #[trigger] r.blocks@[i],
                    build_data.item_sets@[i],
                ),
    {
        let mut title = String::new();
        title.append("[LH] - ");
        title.append(champion.name.as_str());
        title.append(" ");
        title.append(build_data.position.name());
        proof {
            assert(title@ =~= "[LH] - "@ + champion.name@ + " "@
                + build_data.position.name_spec());
        }
        let mut blocks: Vec<Block> = Vec::new();
        for i in 0..build_data.item_sets.len()
            invariant
                blocks@.len() == i,
                forall|k: int|
                    0 <= k < i ==> block_matches(
                        #[trigger] blocks@[k],
                        build_data.item_sets@[k],
                    ),
        {
            blocks.push(Block::from(&build_data.item_sets[i]));
        }
        LeagueItemSet {
            title,
            type_field: "custom".to_owned(),
            map: "any".to_owned(),
            mode: "any".to_owned(),
            priority: false,
            sortrank: 9999999999,
            blocks,
            champion_key: champion.id.clone(),
        }
    }
}

/// Copies a list of item IDs.
fn clone_i64s(ids: &Vec<i64>) -> (r: Vec<i64>)
    ensures
        r@ == ids@,
{
    let mut out: Vec<i64> = Vec::new();
    for i in 0..ids.len()
        invariant
            out@ == ids@.subrange(0, i as int),
    {
        out.push(ids[i]);
        proof {
            assert(ids@.subrange(0, i as int + 1) =~= ids@.subrange(0, i as int).push(
                ids@[i as int],
            ));
        }
    }
    proof {
        assert(ids@.subrange(0, ids@.len() as int) =~= ids@);
    }
    out
}

/// The item groups of a build with the skill order appended to the
/// first group's label, as the exporter writes them out.
pub fn item_sets_with_skill_order(build: &BuildData) -> (r: Vec<ItemSet>)
    ensures
        r@.len() == build.item_sets@.len(),
        build.item_sets@.len() > 0 ==> {
            &&& r@[0].name@ == build.item_sets@[0].name@ + " [Skill Order: "@
                + build.skill_order@ + "]"@
            &&& r@[0].items@ == build.item_sets@[0].items@
        },
        forall|i: int|
            1 <= i < r@.len() ==> {
                &&& (#[trigger] r@[i]).name@ == build.item_sets@[i].name@
                &&& r@[i].items@ == build.item_sets@[i].items@
            },
{
    let mut out: Vec<ItemSet> = Vec::new();
    for i in 0..build.item_sets.len()
        invariant
            out@.len() == i,
            i > 0 ==> {
                &&& out@[0].name@ == build.item_sets@[0].name@ + " [Skill Order: "@
                    + build.skill_order@ + "]"@
                &&& out@[0].items@ == build.item_sets@[0].items@
            },
            forall|k: int|
                1 <= k < i ==> {
                    &&& (#[trigger] out@[k]).name@ == build.item_sets@[k].name@
                    &&& out@[k].items@ == build.item_sets@[k].items@
                },
    {
        let mut name = build.item_sets[i].name.clone();
        if i == 0 {
            name.append(" [Skill Order: ");
            name.append(build.skill_order.as_str());
            name.append("]");
            proof {
                assert(name@ =~= build.item_sets@[0].name@ + " [Skill Order: "@
                    + build.skill_order@ + "]"@);
            }
        }
        out.push(ItemSet { name, items: clone_i64s(&build.item_sets[i].items) });
    }
    out
}

/// The file name one exported build is saved under.
pub fn build_file_name(champion_id: &str, position: &Position, patch_version: &str) -> (r: String)
    ensures
        r@ == "LH_"@ + champion_id@ + "-"@ + position.name_spec() + "-"@ + patch_version@
            + ".json"@,
{
    let mut out = String::new();
    out.append("LH_");
    out.append(champion_id);
    out.append("-");
    out.append(position.name());
    out.append("-");
    out.append(patch_version);
    out.append(".json");
    proof {
        assert(out@ =~= "LH_"@ + champion_id@ + "-"@ + position.name_spec() + "-"@
            + patch_version@ + ".json"@);
    }
    out
}

/// Whether a directory entry is one of this tool's saved build files:
/// the marker prefix and the JSON suffix.
pub open spec fn is_owned_build_file_spec(name: Seq<char>) -> bool {
    &&& name.len() >= 8
    &&& name.subrange(0, 3) == "LH_"@
    &&& name.subrange(name.len() - 5, name.len() as int) == ".json"@
}

/// Whether a directory entry is one of this tool's saved build files.
pub fn is_owned_build_file(name: &str) -> (r: bool)
    ensures
        r == is_owned_build_file_spec(name@),
{
    proof {
        reveal_strlit("LH_");
        reveal_strlit(".json");
    }
    let len = name.unicode_len();
    if len < 8 {
        return false;
    }
    let prefix = name.get_char(0) == 'L' && name.get_char(1) == 'H' && name.get_char(2) == '_';
    let suffix = name.get_char(len - 5) == '.' && name.get_char(len - 4) == 'j' && name.get_char(
        len - 3,
    ) == 's' && name.get_char(len - 2) == 'o' && name.get_char(len - 1) == 'n';
    let r = prefix && suffix;
    proof {
        if r {
            assert(name@.subrange(0, 3) =~= "LH_"@);
            assert(name@.subrange(name@.len() - 5, name@.len() as int) =~= ".json"@);
        } else {
            if name@.subrange(0, 3) == "LH_"@ && name@.subrange(
                name@.len() - 5,
                name@.len() as int,
            ) == ".json"@ {
                assert(name@.subrange(0, 3)[0] == name@[0]);
                assert(name@.subrange(0, 3)[1] == name@[1]);
                assert(name@.subrange(0, 3)[2] == name@[2]);
                assert(name@.subrange(name@.len() - 5, name@.len() as int)[0] == name@[name@.len()
                    - 5]);
                assert(name@.subrange(name@.len() - 5, name@.len() as int)[1] == name@[name@.len()
                    - 4]);
                assert(name@.subrange(name@.len() - 5, name@.len() as int)[2] == name@[name@.len()
                    - 3]);
                assert(name@.subrange(name@.len() - 5, name@.len() as int)[3] == name@[name@.len()
                    - 2]);
                assert(name@.subrange(name@.len() - 5, name@.len() as int)[4] == name@[name@.len()
                    - 1]);
            }
        }
    }
    r
}

} // verus!
