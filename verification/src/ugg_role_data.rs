//! The vendor data normalizer for one character and position.
//!
//! The vendor addresses every field by array position. Each accessor
//! below documents the exact index path it reads and the error it raises
//! when the value at that path cannot be read.

use vstd::prelude::*;

use crate::ddragon_runes_reforged::RuneData;
use crate::ddragon_runes_reforged::RunesData;
use crate::ddragon_runes_reforged::Slot;
use crate::ddragon_runes_reforged::find_tree_spec;
use crate::ddragon_runes_reforged::slot_contains;
use crate::errors::LeagueHelperError;
use crate::item_set::ItemSet;
use crate::node::Node;
use crate::summoner_spells::SummonerSpells;
use crate::node::child_of;
use crate::node::int_of;
use crate::node::members_of;
use crate::node::text_of;
use crate::rune_page::RunePage;
use crate::util::parse_i64_spec;
use crate::util::win_rate_spec;
use crate::util::calc_win_rate;

verus! {

/// One character+position node of the vendor payload, ready to be
/// normalized.
#[derive(Debug)]
pub struct UggRoleData<'a>(pub &'a Node);

/// The rune statistics record of a role node: index path `[0][0]`.
pub open spec fn rune_stats_of(data: Node) -> Node {
    child_of(child_of(data, 0), 0)
}

/// Games played with this rune page: index path `[0][0][0]`.
pub open spec fn rune_games_played_of(data: Node) -> Option<i64> {
    int_of(child_of(rune_stats_of(data), 0))
}

/// Games won with this rune page: index path `[0][0][1]`.
pub open spec fn rune_games_won_of(data: Node) -> Option<i64> {
    int_of(child_of(rune_stats_of(data), 1))
}

/// The primary tree ID: index path `[0][0][2]`.
pub open spec fn primary_tree_of(data: Node) -> Option<i64> {
    int_of(child_of(rune_stats_of(data), 2))
}

/// The secondary tree ID: index path `[0][0][3]`.
pub open spec fn secondary_tree_of(data: Node) -> Option<i64> {
    int_of(child_of(rune_stats_of(data), 3))
}

/// A rune pick entry read as an integer; anything unreadable counts as 0.
pub open spec fn int_or_zero(n: Node) -> i64 {
    match int_of(n) {
        Some(v) => v,
        None => 0,
    }
}

/// The raw, vendor-ordered rune picks: index path `[0][0][4]`, each
/// member read as an integer, unreadable members as 0.
pub open spec fn raw_picks_of(data: Node) -> Seq<i64> {
    members_of(child_of(rune_stats_of(data), 4)).map_values(|n: Node| int_or_zero(n))
}

/// A stat shard entry: a string parsed as an integer; anything
/// unreadable counts as 0.
pub open spec fn shard_or_zero(n: Node) -> i64 {
    match text_of(n) {
        Some(t) => match parse_i64_spec(t) {
            Some(v) => v,
            None => 0,
        },
        None => 0,
    }
}

/// The stat shard IDs: index path `[0][8][2]`, each member a string
/// parsed as an integer, unreadable members as 0.
pub open spec fn shard_list_of(data: Node) -> Seq<i64> {
    members_of(child_of(child_of(child_of(data, 0), 8), 2)).map_values(|n: Node| shard_or_zero(n))
}

/// `s` with the values at `a` and `b` exchanged.
pub open spec fn swap_seq(s: Seq<i64>, a: int, b: int) -> Seq<i64> {
    s.update(a, s[b]).update(b, s[a])
}

/// The first index of `runes` holding a rune of `slot`, or -1.
pub open spec fn first_match(runes: Seq<i64>, slot: Slot) -> int
    decreases runes.len(),
{
    if runes.len() == 0 {
        -1
    } else if slot_contains(slot, runes[0]) {
        0
    } else {
        let r = first_match(runes.drop_first(), slot);
        if r < 0 {
            -1
        } else {
            r + 1
        }
    }
}

/// Moves, for each slot in order, the first matching pick to the next
/// canonical position `i`. Every slot is mandatory: `None` when a slot
/// has no matching pick, or when the picks run out of room.
pub open spec fn place_primary(runes: Seq<i64>, slots: Seq<Slot>, i: int) -> Option<Seq<i64>>
    decreases slots.len(),
{
    if slots.len() == 0 {
        Some(runes)
    } else {
        let k = first_match(runes, slots[0]);
        if k < 0 {
            None
        } else if i >= runes.len() {
            None
        } else {
            place_primary(swap_seq(runes, k, i), slots.drop_first(), i + 1)
        }
    }
}

/// Moves, for each slot in order, the first matching pick (if any) to the
/// next canonical position; slots without a match are skipped. `None`
/// only when a matching pick exists but the picks ran out of room.
pub open spec fn place_secondary(runes: Seq<i64>, slots: Seq<Slot>, i: int) -> Option<(Seq<i64>, int)>
    decreases slots.len(),
{
    if slots.len() == 0 {
        Some((runes, i))
    } else {
        let k = first_match(runes, slots[0]);
        if k < 0 {
            place_secondary(runes, slots.drop_first(), i)
        } else if i >= runes.len() {
            None
        } else {
            place_secondary(swap_seq(runes, k, i), slots.drop_first(), i + 1)
        }
    }
}

/// The secondary slots eligible for picks: every slot but the keystone.
pub open spec fn secondary_slots_of(tree: RuneData) -> Seq<Slot> {
    if tree.slots@.len() == 0 {
        Seq::empty()
    } else {
        tree.slots@.skip(1)
    }
}

/// The first reason normalizing a rune page fails, in evaluation order.
pub enum RunePageIssue {
    /// The primary tree ID is unreadable.
    MissingPrimaryTree,
    /// The secondary tree ID is unreadable.
    MissingSecondaryTree,
    /// The primary tree ID resolves to no known tree.
    UnknownPrimaryTree,
    /// The secondary tree ID resolves to no known tree.
    UnknownSecondaryTree,
    /// Some primary slot has no matching pick, or the picks ran out of
    /// room while placing them.
    UnplacedPrimarySlot,
    /// The picks ran out of room while placing a secondary match.
    UnplacedSecondarySlot,
    /// The ordered picks plus shards do not come to exactly nine.
    WrongRuneCount,
    /// The games-played count is unreadable.
    MissingGamesPlayed,
    /// The games-won count is unreadable.
    MissingGamesWon,
}

/// The ordered rune IDs of a role node under the given reference data,
/// when every step succeeds: primary picks in canonical slot order, then
/// secondary picks, then the stat shards.
pub open spec fn ordered_runes_of(data: Node, rd: RunesData) -> Seq<i64> {
    let ptree = find_tree_spec(rd.runes_data@, primary_tree_of(data)->0)->0;
    let stree = find_tree_spec(rd.runes_data@, secondary_tree_of(data)->0)->0;
    let placed = place_primary(raw_picks_of(data), ptree.slots@, 0)->0;
    let placed2 = place_secondary(placed, secondary_slots_of(stree), ptree.slots@.len() as int)->0;
    placed2.0 + shard_list_of(data)
}

/// The first reason normalizing the rune page of `data` fails, or `None`
/// when a page can be built.
pub open spec fn rune_page_issue(data: Node, rd: RunesData) -> Option<RunePageIssue> {
    if primary_tree_of(data) is None {
        Some(RunePageIssue::MissingPrimaryTree)
    } else if secondary_tree_of(data) is None {
        Some(RunePageIssue::MissingSecondaryTree)
    } else if find_tree_spec(rd.runes_data@, primary_tree_of(data)->0) is None {
        Some(RunePageIssue::UnknownPrimaryTree)
    } else if find_tree_spec(rd.runes_data@, secondary_tree_of(data)->0) is None {
        Some(RunePageIssue::UnknownSecondaryTree)
    } else {
        let ptree = find_tree_spec(rd.runes_data@, primary_tree_of(data)->0)->0;
        let stree = find_tree_spec(rd.runes_data@, secondary_tree_of(data)->0)->0;
        match place_primary(raw_picks_of(data), ptree.slots@, 0) {
            None => Some(RunePageIssue::UnplacedPrimarySlot),
            Some(placed) => match place_secondary(
                placed,
                secondary_slots_of(stree),
                ptree.slots@.len() as int,
            ) {
                None => Some(RunePageIssue::UnplacedSecondarySlot),
                Some(placed2) => {
                    if placed2.0.len() + shard_list_of(data).len() != 9 {
                        Some(RunePageIssue::WrongRuneCount)
                    } else if rune_games_played_of(data) is None {
                        Some(RunePageIssue::MissingGamesPlayed)
                    } else if rune_games_won_of(data) is None {
                        Some(RunePageIssue::MissingGamesWon)
                    } else {
                        None
                    }
                },
            },
        }
    }
}

/// An `i64` count clamped into `u32` range, the domain of the scorer.
pub open spec fn clamp_count(v: i64) -> nat {
    if v < 0 {
        0
    } else if v > 0xffff_ffff {
        0xffff_ffff
    } else {
        v as nat
    }
}

/// The confidence score a normalized page carries: the Wilson bound of
/// the clamped games-won/games-played counts.
pub open spec fn page_score_of(data: Node) -> int {
    win_rate_spec(clamp_count(rune_games_won_of(data)->0), clamp_count(rune_games_played_of(data)->0))
}

/// The node three levels down from `data` along `a`, `b`, `c`.
fn node_at3<'a>(data: &'a Node, a: usize, b: usize, c: usize) -> (r: Option<&'a Node>)
    ensures
        r matches Some(nd) ==> *nd == child_of(child_of(child_of(*data, a as int), b as int), c as int),
        r is None ==> child_of(child_of(child_of(*data, a as int), b as int), c as int) == Node::Null,
{
    match data.child(a) {
        Some(x) => match x.child(b) {
            Some(y) => y.child(c),
            None => None,
        },
        None => None,
    }
}

/// `first_match` is what its name says: the first matching index.
proof fn lemma_first_match_props(runes: Seq<i64>, slot: Slot)
    ensures
        first_match(runes, slot) >= 0 ==> {
            &&& first_match(runes, slot) < runes.len()
            &&& slot_contains(slot, runes[first_match(runes, slot)])
            &&& forall|j: int| 0 <= j < first_match(runes, slot) ==> !slot_contains(slot, runes[j])
        },
        first_match(runes, slot) < 0 ==> forall|j: int|
            0 <= j < runes.len() ==> !slot_contains(slot, runes[j]),
    decreases runes.len(),
{
    if runes.len() == 0 {
    } else if slot_contains(slot, runes[0]) {
    } else {
        let rest = runes.drop_first();
        lemma_first_match_props(rest, slot);
        let fmd = first_match(rest, slot);
        if fmd >= 0 {
            assert(rest[fmd] == runes[fmd + 1]);
            assert(first_match(runes, slot) == fmd + 1);
            assert forall|j: int| 0 <= j < fmd + 1 implies !slot_contains(slot, runes[j]) by {
                if j > 0 {
                    assert(rest[j - 1] == runes[j]);
                }
            }
        } else {
            assert forall|j: int| 0 <= j < runes.len() implies !slot_contains(slot, runes[j]) by {
                if j > 0 {
                    assert(rest[j - 1] == runes[j]);
                }
            }
        }
    }
}

/// The first index of `runes` holding a rune of `slot`, if any.
fn find_first_match(runes: &Vec<i64>, slot: &Slot) -> (r: Option<usize>)
    ensures
        r matches Some(k) ==> k as int == first_match(runes@, *slot),
        r is None ==> first_match(runes@, *slot) < 0,
{
    for k in 0..runes.len()
        invariant
            forall|j: int| 0 <= j < k ==> !slot_contains(*slot, runes@[j]),
    {
        if slot.has_rune(runes[k]) {
            proof {
                lemma_first_match_props(runes@, *slot);
            }
            return Some(k);
        }
    }
    proof {
        lemma_first_match_props(runes@, *slot);
    }
    None
}

impl<'a> UggRoleData<'a> {
    /// Normalizes the rune page of this role node against the reference
    /// data: resolves both tree IDs, reorders the raw picks into
    /// canonical slot order (every primary slot mandatory, secondary
    /// slots optional, the keystone slot of the secondary tree skipped),
    /// appends the stat shards, checks the nine-rune invariant, and
    /// scores the page by its games-won/games-played counts.
    pub fn get_rune_page(&self, runes_data: &RunesData) -> (r: Result<
        RunePage,
        LeagueHelperError,
    >)
        ensures
            r is Ok <==> rune_page_issue(*self.0, *runes_data) is None,
            r matches Ok(p) ==> {
                &&& p.primary_tree == primary_tree_of(*self.0)->0
                &&& p.secondary_tree == secondary_tree_of(*self.0)->0
                &&& p.runes@ == ordered_runes_of(*self.0, *runes_data)
                &&& p.runes@.len() == 9
                &&& p.win_rate == page_score_of(*self.0)
                &&& p.well_formed()
            },
            rune_page_issue(*self.0, *runes_data) matches Some(issue) ==> match issue {
                RunePageIssue::MissingPrimaryTree => r matches Err(
                    LeagueHelperError::MissingField(m),
                ) && m@ == "Failed to read runes primary tree"@,
                RunePageIssue::MissingSecondaryTree => r matches Err(
                    LeagueHelperError::MissingField(m),
                ) && m@ == "Failed to read runes secondary tree"@,
                RunePageIssue::UnknownPrimaryTree => r matches Err(
                    LeagueHelperError::InvalidReference(m),
                ) && m@ == "Primary tree rune key was not valid"@,
                RunePageIssue::UnknownSecondaryTree => r matches Err(
                    LeagueHelperError::InvalidReference(m),
                ) && m@ == "Secondary tree rune key was not valid"@,
                RunePageIssue::UnplacedPrimarySlot => r == Err::<RunePage, _>(
                    LeagueHelperError::IncompleteRunePage,
                ),
                RunePageIssue::UnplacedSecondarySlot => r == Err::<RunePage, _>(
                    LeagueHelperError::IncompleteRunePage,
                ),
                RunePageIssue::WrongRuneCount => r == Err::<RunePage, _>(
                    LeagueHelperError::IncompleteRunePage,
                ),
                RunePageIssue::MissingGamesPlayed => r matches Err(
                    LeagueHelperError::MissingField(m),
                ) && m@ == "Failed to read runes games played"@,
                RunePageIssue::MissingGamesWon => r matches Err(
                    LeagueHelperError::MissingField(m),
                ) && m@ == "Failed to read runes games won"@,
            },
    {
        let data = self.0;

        let primary_tree = match node_at3(data, 0, 0, 2) {
            Some(n) => match n.as_int() {
                Some(v) => v,
                None => {
                    return Err(LeagueHelperError::MissingField(
                        "Failed to read runes primary tree".to_owned(),
                    ));
                },
            },
            None => {
                return Err(LeagueHelperError::MissingField(
                    "Failed to read runes primary tree".to_owned(),
                ));
            },
        };

        let secondary_tree = match node_at3(data, 0, 0, 3) {
            Some(n) => match n.as_int() {
                Some(v) => v,
                None => {
                    return Err(LeagueHelperError::MissingField(
                        "Failed to read runes secondary tree".to_owned(),
                    ));
                },
            },
            None => {
                return Err(LeagueHelperError::MissingField(
                    "Failed to read runes secondary tree".to_owned(),
                ));
            },
        };

        let primary_data = match runes_data.find_tree(primary_tree) {
            Some(t) => t,
            None => {
                return Err(LeagueHelperError::InvalidReference(
                    "Primary tree rune key was not valid".to_owned(),
                ));
            },
        };

        let secondary_data = match runes_data.find_tree(secondary_tree) {
            Some(t) => t,
            None => {
                return Err(LeagueHelperError::InvalidReference(
                    "Secondary tree rune key was not valid".to_owned(),
                ));
            },
        };

        // The raw, vendor-ordered picks.
        let mut runes: Vec<i64> = Vec::new();
        if let Some(picks) = node_at3(data, 0, 0, 4) {
            if let Some(items) = picks.as_list() {
                for m in 0..items.len()
                    invariant
                        runes@ == members_of(child_of(rune_stats_of(*self.0), 4)).subrange(
                            0,
                            m as int,
                        ).map_values(|n: Node| int_or_zero(n)),
                        items@ == members_of(child_of(rune_stats_of(*self.0), 4)),
                {
                    runes.push(items[m].as_int().unwrap_or(0));
                    proof {
                        let all = members_of(child_of(rune_stats_of(*self.0), 4));
                        assert(all.subrange(0, m + 1).drop_last() =~= all.subrange(0, m as int));
                        assert(all.subrange(0, m + 1).map_values(|n: Node| int_or_zero(n))
                            =~= all.subrange(0, m as int).map_values(|n: Node| int_or_zero(n)).push(
                            int_or_zero(all[m as int]),
                        ));
                    }
                }
                proof {
                    let all = members_of(child_of(rune_stats_of(*self.0), 4));
                    assert(all.subrange(0, all.len() as int) =~= all);
                }
            }
        }
        proof {
            assert(raw_picks_of(*self.0).subrange(0, 0int)
                =~= Seq::<Node>::empty().map_values(|n: Node| int_or_zero(n)));
            assert(runes@ =~= raw_picks_of(*self.0));
        }

        let ghost picks0 = raw_picks_of(*self.0);
        let ghost pslots = primary_data.slots@;

        // Sort and validate the picks against the primary tree's slots.
        let mut i: usize = 0;
        proof {
            assert(pslots.skip(0) =~= pslots);
        }
        for j in 0..primary_data.slots.len()
            invariant
                i == j,
                i <= runes@.len(),
                primary_data.slots@ == pslots,
                runes@.len() == picks0.len(),
                place_primary(picks0, pslots, 0) == place_primary(
                    runes@,
                    pslots.skip(j as int),
                    j as int,
                ),
                primary_tree_of(*self.0) == Some(primary_tree),
                secondary_tree_of(*self.0) == Some(secondary_tree),
                find_tree_spec(runes_data.runes_data@, primary_tree) == Some(*primary_data),
                find_tree_spec(runes_data.runes_data@, secondary_tree) == Some(*secondary_data),
                picks0 == raw_picks_of(*self.0),
        {
            proof {
                assert(pslots.skip(j as int).len() > 0);
                assert(pslots.skip(j as int)[0] == pslots[j as int]);
                assert(pslots.skip(j as int).drop_first() =~= pslots.skip(j as int + 1));
            }
            let slot = &primary_data.slots[j];
            match find_first_match(&runes, slot) {
                None => {
                    return Err(LeagueHelperError::IncompleteRunePage);
                },
                Some(k) => {
                    if i >= runes.len() {
                        return Err(LeagueHelperError::IncompleteRunePage);
                    }
                    proof {
                        lemma_first_match_props(runes@, pslots[j as int]);
                    }
                    let a = runes[k];
                    let b = runes[i];
                    runes.set(k, b);
                    runes.set(i, a);
                },
            }
            i = i + 1;
        }
        proof {
            assert(pslots.skip(pslots.len() as int).len() == 0);
        }

        let ghost placed1 = runes@;
        let ghost i1 = i as int;
        let ghost sslots = secondary_slots_of(*secondary_data);

        // Place the optional secondary picks, skipping the keystone slot.
        if secondary_data.slots.len() > 0 {
            proof {
                assert(sslots.skip(0) =~= sslots);
            }
            for j in 1..secondary_data.slots.len()
                invariant
                    secondary_data.slots@.len() > 0,
                    sslots == secondary_slots_of(*secondary_data),
                    sslots.len() == secondary_data.slots@.len() - 1,
                    1 <= j <= secondary_data.slots@.len(),
                    i <= runes@.len(),
                    runes@.len() == picks0.len(),
                    place_secondary(placed1, sslots, i1) == place_secondary(
                        runes@,
                        sslots.skip(j - 1),
                        i as int,
                    ),
                    primary_tree_of(*self.0) == Some(primary_tree),
                    secondary_tree_of(*self.0) == Some(secondary_tree),
                    find_tree_spec(runes_data.runes_data@, primary_tree) == Some(*primary_data),
                    find_tree_spec(runes_data.runes_data@, secondary_tree) == Some(*secondary_data),
                    picks0 == raw_picks_of(*self.0),
                    pslots == primary_data.slots@,
                    i1 == pslots.len() as int,
                    place_primary(picks0, pslots, 0) == Some(placed1),
            {
                proof {
                    assert(sslots =~= secondary_data.slots@.skip(1));
                    assert(sslots.skip(j - 1).len() > 0);
                    assert(sslots.skip(j - 1)[0] == sslots[j - 1]);
                    assert(sslots[j - 1] == secondary_data.slots@[j as int]);
                    assert(sslots.skip(j - 1).drop_first() =~= sslots.skip(j as int));
                }
                let slot = &secondary_data.slots[j];
                match find_first_match(&runes, slot) {
                    None => {},
                    Some(k) => {
                        if i >= runes.len() {
                            return Err(LeagueHelperError::IncompleteRunePage);
                        }
                        proof {
                            lemma_first_match_props(runes@, sslots[j - 1]);
                        }
                        let a = runes[k];
                        let b = runes[i];
                        runes.set(k, b);
                        runes.set(i, a);
                        i = i + 1;
                    },
                }
            }
            proof {
                assert(sslots.skip(sslots.len() as int).len() == 0);
            }
        }
        proof {
            assert(place_secondary(placed1, sslots, i1) matches Some(p) && p.0 == runes@);
        }

        // Append the stat shards.
        let ghost before_shards = runes@;
        if let Some(shards) = node_at3(data, 0, 8, 2) {
            if let Some(items) = shards.as_list() {
                for m in 0..items.len()
                    invariant
                        items@ == members_of(child_of(child_of(child_of(*self.0, 0), 8), 2)),
                        runes@ == before_shards + items@.subrange(0, m as int).map_values(
                            |n: Node| shard_or_zero(n),
                        ),
                {
                    let shard = match items[m].as_text() {
                        Some(t) => crate::util::parse_i64(t).unwrap_or(0),
                        None => 0,
                    };
                    runes.push(shard);
                    proof {
                        assert(items@.subrange(0, m + 1).drop_last() =~= items@.subrange(
                            0,
                            m as int,
                        ));
                        assert(items@.subrange(0, m + 1).map_values(|n: Node| shard_or_zero(n))
                            =~= items@.subrange(0, m as int).map_values(
                            |n: Node| shard_or_zero(n),
                        ).push(shard_or_zero(items@[m as int])));
                        assert(shard == shard_or_zero(items@[m as int]));
                    }
                }
                proof {
                    assert(items@.subrange(0, items@.len() as int) =~= items@);
                }
            }
        }
        proof {
            assert(runes@ =~= before_shards + shard_list_of(*self.0));
        }

        if runes.len() != 9 {
            return Err(LeagueHelperError::IncompleteRunePage);
        }

        // The rune page's sample counts, for the confidence score.
        let games_played = match node_at3(data, 0, 0, 0) {
            Some(n) => match n.as_int() {
                Some(v) => v,
                None => {
                    return Err(LeagueHelperError::MissingField(
                        "Failed to read runes games played".to_owned(),
                    ));
                },
            },
            None => {
                return Err(LeagueHelperError::MissingField(
                    "Failed to read runes games played".to_owned(),
                ));
            },
        };

        let games_won = match node_at3(data, 0, 0, 1) {
            Some(n) => match n.as_int() {
                Some(v) => v,
                None => {
                    return Err(LeagueHelperError::MissingField(
                        "Failed to read runes games won".to_owned(),
                    ));
                },
            },
            None => {
                return Err(LeagueHelperError::MissingField(
                    "Failed to read runes games won".to_owned(),
                ));
            },
        };

        let win_rate = calc_win_rate(clamp_to_u32(games_won), clamp_to_u32(games_played));

        Ok(RunePage { runes, primary_tree, secondary_tree, win_rate })
    }
}

/// Games won with an item set: index path `[0][idx][0]`.
pub open spec fn itemset_won_of(data: Node, idx: int) -> Option<i64> {
    int_of(child_of(child_of(child_of(data, 0), idx), 0))
}

/// Games played with an item set: index path `[0][idx][1]`.
pub open spec fn itemset_played_of(data: Node, idx: int) -> Option<i64> {
    int_of(child_of(child_of(child_of(data, 0), idx), 1))
}

/// The items of a labeled set: index path `[0][idx][2]`, each member
/// read as an integer, unreadable members as 0.
pub open spec fn itemset_items_of(data: Node, idx: int) -> Seq<i64> {
    members_of(child_of(child_of(child_of(data, 0), idx), 2)).map_values(|n: Node| int_or_zero(n))
}

/// The unlabeled item-option groups: index path `[0][5]`.
pub open spec fn option_groups_of(data: Node) -> Seq<Node> {
    members_of(child_of(child_of(data, 0), 5))
}

/// The items of one option group: the first member of each sub-array.
pub open spec fn option_group_items(g: Node) -> Seq<i64> {
    members_of(g).map_values(|m: Node| int_or_zero(child_of(m, 0)))
}

/// The vendor's "win rate" percentage for an item set, two decimals,
/// rounded half away from zero. The vendor convention divides games
/// played by games won — preserved as-is so that exported labels match
/// what downstream consumers already hold. A zero divisor renders the
/// way floating-point division would: `NaN` for 0/0, otherwise a signed
/// infinity.
pub open spec fn percent_label_spec(won: i64, played: i64) -> Seq<char> {
    if won == 0 && played == 0 {
        "NaN"@
    } else if won == 0 && played > 0 {
        "inf"@
    } else if won == 0 {
        "-inf"@
    } else {
        let ap: int = if played < 0 {
            -(played as int)
        } else {
            played as int
        };
        let aw: int = if won < 0 {
            -(won as int)
        } else {
            won as int
        };
        let neg = (played < 0) != (won < 0);
        let mag = (2 * ap * 10_000 + aw) / (2 * aw);
        (if neg {
            seq!['-']
        } else {
            Seq::empty()
        }) + crate::util::dec_str_of((mag / 100) as nat) + seq![
            '.',
            crate::util::digit_char((mag % 100) / 10),
            crate::util::digit_char(mag % 10),
        ]
    }
}

/// The full label of a labeled item set.
pub open spec fn item_set_label(name: Seq<char>, won: i64, played: i64) -> Seq<char> {
    name + " - "@ + percent_label_spec(won, played) + "% win rate"@
}

/// What a fully extracted item-set list looks like for a role node: the
/// two mandatory labeled sets, then one set per option group.
pub open spec fn item_sets_match(sets: Seq<ItemSet>, v: Node) -> bool {
    &&& sets.len() == 2 + option_groups_of(v).len()
    &&& sets[0].name@ == item_set_label(
        "Starting Build"@,
        itemset_won_of(v, 2)->0,
        itemset_played_of(v, 2)->0,
    )
    &&& sets[0].items@ == itemset_items_of(v, 2)
    &&& sets[1].name@ == item_set_label(
        "Core Build"@,
        itemset_won_of(v, 3)->0,
        itemset_played_of(v, 3)->0,
    )
    &&& sets[1].items@ == itemset_items_of(v, 3)
    &&& forall|i: int|
        0 <= i < option_groups_of(v).len() ==> {
            &&& (#[trigger] sets[2 + i]).name@ == option_label_spec(i)
            &&& sets[2 + i].items@ == option_group_items(option_groups_of(v)[i])
        }
}

/// The positional label of the `i`th unlabeled option group.
pub open spec fn option_label_spec(i: int) -> Seq<char> {
    if i == 0 {
        "Fourth Item Options (ordered by games played)"@
    } else if i == 1 {
        "Fifth Item Options (ordered by games played)"@
    } else if i == 2 {
        "Sixth Item Options (ordered by games played)"@
    } else {
        "Unknown Item Options (ordered by games played)"@
    }
}

/// Appends the vendor's two-decimal percentage to `out`.
fn append_percent(out: &mut String, won: i64, played: i64)
    ensures
        final(out)@ == old(out)@ + percent_label_spec(won, played),
{
    if won == 0 && played == 0 {
        out.append("NaN");
        proof {
            assert(final(out)@ =~= old(out)@ + percent_label_spec(won, played));
        }
    } else if won == 0 && played > 0 {
        out.append("inf");
        proof {
            assert(final(out)@ =~= old(out)@ + percent_label_spec(won, played));
        }
    } else if won == 0 {
        out.append("-inf");
        proof {
            assert(final(out)@ =~= old(out)@ + percent_label_spec(won, played));
        }
    } else {
        let ap: u128 = if played < 0 {
            (-(played as i128)) as u128
        } else {
            played as u128
        };
        let aw: u128 = if won < 0 {
            (-(won as i128)) as u128
        } else {
            won as u128
        };
        let neg = (played < 0) != (won < 0);
        let mag: u128 = (2 * ap * 10_000 + aw) / (2 * aw);
        if neg {
            crate::util::push_char(out, '-');
        }
        crate::util::append_u128(out, mag / 100);
        crate::util::push_char(out, '.');
        let frac = (mag % 100) as u8;
        crate::util::push_char(out, crate::util::digit_to_char(frac / 10));
        crate::util::push_char(out, crate::util::digit_to_char(frac % 10));
        proof {
            assert((mag % 100) / 10 == (mag as int % 100) / 10);
            assert(final(out)@ =~= old(out)@ + percent_label_spec(won, played));
        }
    }
}

/// Reads one mandatory labeled item set at index path `[0][idx]`:
/// games won at `[0]`, games played at `[1]`, items at `[2]`.
fn labeled_item_set(data: &Node, name: &str, idx: usize) -> (r: Result<
    ItemSet,
    LeagueHelperError,
>)
    ensures
        r is Ok <==> (itemset_won_of(*data, idx as int) is Some && itemset_played_of(
            *data,
            idx as int,
        ) is Some),
        r matches Ok(s) ==> {
            &&& s.name@ == item_set_label(
                name@,
                itemset_won_of(*data, idx as int)->0,
                itemset_played_of(*data, idx as int)->0,
            )
            &&& s.items@ == itemset_items_of(*data, idx as int)
        },
        itemset_won_of(*data, idx as int) is None ==> (r matches Err(
            LeagueHelperError::MissingField(m),
        ) && m@ == "Failed to read item set: "@ + name@ + " for games_won"@),
        (itemset_won_of(*data, idx as int) is Some && itemset_played_of(*data, idx as int)
            is None) ==> (r matches Err(LeagueHelperError::MissingField(m)) && m@
            == "Failed to read item set: "@ + name@ + " for games_played"@),
{
    let won = match node_at3(data, 0, idx, 0) {
        Some(n) => n.as_int(),
        None => None,
    };
    let won = match won {
        Some(v) => v,
        None => {
            let mut m = String::new();
            m.append("Failed to read item set: ");
            m.append(name);
            m.append(" for games_won");
            proof {
                assert(m@ =~= "Failed to read item set: "@ + name@ + " for games_won"@);
            }
            return Err(LeagueHelperError::MissingField(m));
        },
    };
    let played = match node_at3(data, 0, idx, 1) {
        Some(n) => n.as_int(),
        None => None,
    };
    let played = match played {
        Some(v) => v,
        None => {
            let mut m = String::new();
            m.append("Failed to read item set: ");
            m.append(name);
            m.append(" for games_played");
            proof {
                assert(m@ =~= "Failed to read item set: "@ + name@ + " for games_played"@);
            }
            return Err(LeagueHelperError::MissingField(m));
        },
    };

    let mut label = String::new();
    label.append(name);
    label.append(" - ");
    append_percent(&mut label, won, played);
    label.append("% win rate");
    proof {
        assert(label@ =~= item_set_label(name@, won, played));
    }

    let mut items: Vec<i64> = Vec::new();
    if let Some(arr) = node_at3(data, 0, idx, 2) {
        if let Some(list) = arr.as_list() {
            for m in 0..list.len()
                invariant
                    list@ == members_of(child_of(child_of(child_of(*data, 0), idx as int), 2)),
                    items@ == list@.subrange(0, m as int).map_values(|n: Node| int_or_zero(n)),
            {
                items.push(list[m].as_int().unwrap_or(0));
                proof {
                    assert(list@.subrange(0, m + 1).drop_last() =~= list@.subrange(0, m as int));
                    assert(list@.subrange(0, m + 1).map_values(|n: Node| int_or_zero(n))
                        =~= list@.subrange(0, m as int).map_values(|n: Node| int_or_zero(n)).push(
                        int_or_zero(list@[m as int]),
                    ));
                }
            }
            proof {
                assert(list@.subrange(0, list@.len() as int) =~= list@);
            }
        }
    }
    proof {
        assert(items@ =~= itemset_items_of(*data, idx as int));
    }
    Ok(ItemSet { name: label, items })
}

impl<'a> UggRoleData<'a> {
    /// Extracts the item sets: the two mandatory labeled sets
    /// ("Starting Build" at `[0][2]`, "Core Build" at `[0][3]`), then
    /// zero or more unlabeled option groups at `[0][5]`, labeled
    /// positionally. Only the mandatory sets can fail the record.
    pub fn get_item_set(&self) -> (r: Result<Vec<ItemSet>, LeagueHelperError>)
        ensures
            r is Ok <==> {
                &&& itemset_won_of(*self.0, 2) is Some
                &&& itemset_played_of(*self.0, 2) is Some
                &&& itemset_won_of(*self.0, 3) is Some
                &&& itemset_played_of(*self.0, 3) is Some
            },
            r matches Ok(sets) ==> item_sets_match(sets@, *self.0),
    {
        let data = self.0;
        let mut sets: Vec<ItemSet> = Vec::new();

        let starting = match labeled_item_set(data, "Starting Build", 2) {
            Ok(s) => s,
            Err(e) => {
                return Err(e);
            },
        };
        let core = match labeled_item_set(data, "Core Build", 3) {
            Ok(s) => s,
            Err(e) => {
                return Err(e);
            },
        };
        let ghost starting_snap = starting;
        let ghost core_snap = core;
        sets.push(starting);
        sets.push(core);
        proof {
            assert(sets@[0] == starting_snap);
            assert(sets@[1] == core_snap);
        }

        let groups_node = match data.child(0) {
            Some(n) => n.child(5),
            None => None,
        };
        if let Some(groups) = groups_node {
            if let Some(list) = groups.as_list() {
                let ghost base = sets@;
                proof {
                    assert(sets@.subrange(0, 2) =~= base);
                }
                for g in 0..list.len()
                    invariant
                        list@ == option_groups_of(*self.0),
                        sets@.len() == 2 + g,
                        sets@.subrange(0, 2) == base,
                        base.len() == 2,
                        forall|i: int|
                            0 <= i < g ==> {
                                &&& (#[trigger] sets@[2 + i]).name@ == option_label_spec(i)
                                &&& sets@[2 + i].items@ == option_group_items(list@[i])
                            },
                {
                    let label = if g == 0 {
                        "Fourth Item Options (ordered by games played)"
                    } else if g == 1 {
                        "Fifth Item Options (ordered by games played)"
                    } else if g == 2 {
                        "Sixth Item Options (ordered by games played)"
                    } else {
                        "Unknown Item Options (ordered by games played)"
                    };
                    let mut items: Vec<i64> = Vec::new();
                    if let Some(subs) = list[g].as_list() {
                        for m in 0..subs.len()
                            invariant
                                subs@ == members_of(list@[g as int]),
                                g < list@.len(),
                                list@ == option_groups_of(*self.0),
                                items@ == subs@.subrange(0, m as int).map_values(
                                    |n: Node| int_or_zero(child_of(n, 0)),
                                ),
                        {
                            let v = match subs[m].child(0) {
                                Some(c) => c.as_int().unwrap_or(0),
                                None => 0,
                            };
                            items.push(v);
                            proof {
                                assert(subs@.subrange(0, m + 1).drop_last() =~= subs@.subrange(
                                    0,
                                    m as int,
                                ));
                                assert(subs@.subrange(0, m + 1).map_values(
                                    |n: Node| int_or_zero(child_of(n, 0)),
                                ) =~= subs@.subrange(0, m as int).map_values(
                                    |n: Node| int_or_zero(child_of(n, 0)),
                                ).push(int_or_zero(child_of(subs@[m as int], 0))));
                            }
                        }
                        proof {
                            assert(subs@.subrange(0, subs@.len() as int) =~= subs@);
                        }
                    }
                    proof {
                        assert(items@ =~= option_group_items(list@[g as int]));
                    }
                    sets.push(ItemSet { name: label.to_owned(), items });
                    proof {
                        assert(sets@.subrange(0, 2) =~= base);
                    }
                }
            }
        }
        proof {
            assert(sets@[0] == starting_snap);
            assert(sets@[1] == core_snap);
        }
        Ok(sets)
    }

    /// Reads the skill-order string at index path `[0][4][3]` and joins
    /// its characters with `>`.
    pub fn get_skill_order(&self) -> (r: Result<String, LeagueHelperError>)
        ensures
            r is Ok <==> skill_source_of(*self.0) is Some,
            r matches Ok(s) ==> s@ == joined_gt(skill_source_of(*self.0)->0),
            r is Err ==> (r matches Err(LeagueHelperError::MissingField(m)) && m@
                == "Failed to read skill order"@),
    {
        let src = match node_at3(self.0, 0, 4, 3) {
            Some(n) => n.as_text(),
            None => None,
        };
        let src = match src {
            Some(t) => t,
            None => {
                return Err(LeagueHelperError::MissingField(
                    "Failed to read skill order".to_owned(),
                ));
            },
        };
        let len = src.unicode_len();
        let mut out = String::new();
        for i in 0..len
            invariant
                len == src@.len(),
                out@ == joined_gt(src@.subrange(0, i as int)),
        {
            if i > 0 {
                crate::util::push_char(&mut out, '>');
            }
            crate::util::push_char(&mut out, src.get_char(i));
            proof {
                let cur = src@.subrange(0, i as int + 1);
                assert(cur.drop_last() =~= src@.subrange(0, i as int));
                assert(cur.last() == src@[i as int]);
                if i == 0 {
                    assert(joined_gt(cur) =~= out@);
                } else {
                    assert(joined_gt(cur) =~= joined_gt(src@.subrange(0, i as int)) + seq![
                        '>',
                        src@[i as int],
                    ]);
                    assert(out@ =~= joined_gt(cur));
                }
            }
        }
        proof {
            assert(src@.subrange(0, src@.len() as int) =~= src@);
        }
        Ok(out)
    }

    /// Reads the two recommended summoner spells at index paths
    /// `[0][1][2][0]` and `[0][1][2][1]`.
    pub fn get_summoner_spells(&self) -> (r: Result<SummonerSpells, LeagueHelperError>)
        ensures
            r is Ok <==> (first_spell_of(*self.0) is Some && second_spell_of(*self.0) is Some),
            r matches Ok(s) ==> {
                &&& s.spell1_id == first_spell_of(*self.0)->0
                &&& s.spell2_id == second_spell_of(*self.0)->0
            },
            first_spell_of(*self.0) is None ==> (r matches Err(LeagueHelperError::MissingField(m))
                && m@ == "Failed to read first summoner spell"@),
            (first_spell_of(*self.0) is Some && second_spell_of(*self.0) is None) ==> (r matches Err(
                LeagueHelperError::MissingField(m),
            ) && m@ == "Failed to read second summoner spell"@),
    {
        let pair = node_at3(self.0, 0, 1, 2);
        let first = match pair {
            Some(n) => match n.child(0) {
                Some(c) => c.as_int(),
                None => None,
            },
            None => None,
        };
        let first = match first {
            Some(v) => v,
            None => {
                return Err(LeagueHelperError::MissingField(
                    "Failed to read first summoner spell".to_owned(),
                ));
            },
        };
        let second = match pair {
            Some(n) => match n.child(1) {
                Some(c) => c.as_int(),
                None => None,
            },
            None => None,
        };
        let second = match second {
            Some(v) => v,
            None => {
                return Err(LeagueHelperError::MissingField(
                    "Failed to read second summoner spell".to_owned(),
                ));
            },
        };
        Ok(SummonerSpells { spell1_id: first, spell2_id: second })
    }
}

/// The skill-order source string: index path `[0][4][3]`.
pub open spec fn skill_source_of(data: Node) -> Option<Seq<char>> {
    text_of(child_of(child_of(child_of(data, 0), 4), 3))
}

/// The characters of `s` joined with `>` between each pair.
pub open spec fn joined_gt(s: Seq<char>) -> Seq<char>
    decreases s.len(),
{
    if s.len() == 0 {
        Seq::empty()
    } else if s.len() == 1 {
        seq![s[0]]
    } else {
        joined_gt(s.drop_last()) + seq!['>', s.last()]
    }
}

/// The first recommended summoner spell: index path `[0][1][2][0]`.
pub open spec fn first_spell_of(data: Node) -> Option<i64> {
    int_of(child_of(child_of(child_of(child_of(data, 0), 1), 2), 0))
}

/// The second recommended summoner spell: index path `[0][1][2][1]`.
pub open spec fn second_spell_of(data: Node) -> Option<i64> {
    int_of(child_of(child_of(child_of(child_of(data, 0), 1), 2), 1))
}

/// No rune ID belongs to two different slots of the list.
pub open spec fn all_slots_disjoint(slots: Seq<Slot>) -> bool {
    forall|a: int, b: int, id: i64|
        0 <= a < b < slots.len() && #[trigger] slot_contains(slots[a], id) ==> !(
        #[trigger] slot_contains(slots[b], id))
}

/// Primary placement is canonical: when it succeeds over pairwise
/// disjoint slots, and every position before `i` holds a rune of no
/// slot, then position `i + j` of the result holds a rune of slot `j`,
/// and the positions before `i` are untouched.
pub proof fn lemma_place_primary_canonical(runes: Seq<i64>, slots: Seq<Slot>, i: int)
    requires
        0 <= i,
        all_slots_disjoint(slots),
        forall|p: int, a: int|
            0 <= p < i && p < runes.len() && 0 <= a < slots.len() ==> !slot_contains(
                #[trigger] slots[a],
                #[trigger] runes[p],
            ),
    ensures
        place_primary(runes, slots, i) matches Some(out) ==> {
            &&& out.len() == runes.len()
            &&& (slots.len() > 0 ==> i + slots.len() <= out.len())
            &&& forall|p: int| 0 <= p < i && p < out.len() ==> out[p] == runes[p]
            &&& forall|j: int|
                0 <= j < slots.len() ==> slot_contains(#[trigger] slots[j], out[i + j])
        },
    decreases slots.len(),
{
    if slots.len() == 0 {
        return;
    }
    let k = first_match(runes, slots[0]);
    if k < 0 || i >= runes.len() {
        return;
    }
    lemma_first_match_props(runes, slots[0]);
    assert(k >= i);
    let swapped = swap_seq(runes, k, i);
    assert(swapped.len() == runes.len());
    assert(swapped[i] == runes[k]);
    assert(forall|p: int| 0 <= p < i ==> swapped[p] == runes[p]);
    let tail = slots.drop_first();
    assert(forall|a: int| 0 <= a < tail.len() ==> tail[a] == slots[a + 1]);
    assert(all_slots_disjoint(tail)) by {
        assert forall|a: int, b: int, id: i64|
            0 <= a < b < tail.len() && #[trigger] slot_contains(tail[a], id) implies !(
        #[trigger] slot_contains(tail[b], id)) by {
            assert(tail[a] == slots[a + 1]);
            assert(tail[b] == slots[b + 1]);
        }
    }
    assert forall|p: int, a: int|
        0 <= p < i + 1 && p < swapped.len() && 0 <= a < tail.len() implies !slot_contains(
        #[trigger] tail[a],
        #[trigger] swapped[p],
    ) by {
        assert(tail[a] == slots[a + 1]);
        if p < i {
            assert(swapped[p] == runes[p]);
        } else {
            assert(swapped[i] == runes[k]);
            assert(slot_contains(slots[0], runes[k]));
        }
    }
    lemma_place_primary_canonical(swapped, tail, i + 1);
    if place_primary(runes, slots, i) is Some {
        let out = place_primary(runes, slots, i)->0;
        assert(place_primary(swapped, tail, i + 1) == Some(out));
        assert(out.len() == runes.len());
        assert(i + slots.len() <= out.len()) by {
            if tail.len() > 0 {
                assert((i + 1) + tail.len() <= out.len());
            }
        }
        assert forall|p: int| 0 <= p < i && p < out.len() implies out[p] == runes[p] by {
            assert(out[p] == swapped[p]);
        }
        assert forall|j: int| 0 <= j < slots.len() implies slot_contains(
            #[trigger] slots[j],
            out[i + j],
        ) by {
            if j == 0 {
                assert(out[i] == swapped[i]);
            } else {
                assert(tail[j - 1] == slots[j]);
                assert(slot_contains(tail[j - 1], out[(i + 1) + (j - 1)]));
            }
        }
    }
}

/// Secondary placement never disturbs the positions already filled, and
/// everything it fills comes from one of its slots — provided the
/// slots are pairwise disjoint and the prefix holds runes of no slot.
pub proof fn lemma_place_secondary_canonical(runes: Seq<i64>, slots: Seq<Slot>, i: int)
    requires
        0 <= i,
        all_slots_disjoint(slots),
        forall|p: int, a: int|
            0 <= p < i && p < runes.len() && 0 <= a < slots.len() ==> !slot_contains(
                #[trigger] slots[a],
                #[trigger] runes[p],
            ),
    ensures
        place_secondary(runes, slots, i) matches Some(out) ==> {
            &&& out.0.len() == runes.len()
            &&& i <= out.1 <= i + slots.len()
            &&& forall|p: int| 0 <= p < i && p < out.0.len() ==> out.0[p] == runes[p]
            &&& forall|p: int|
                i <= p < out.1 ==> exists|s: int|
                    0 <= s < slots.len() && slot_contains(slots[s], #[trigger] out.0[p])
        },
    decreases slots.len(),
{
    if slots.len() == 0 {
        return;
    }
    let k = first_match(runes, slots[0]);
    let tail = slots.drop_first();
    assert(forall|a: int| 0 <= a < tail.len() ==> tail[a] == slots[a + 1]);
    assert(all_slots_disjoint(tail)) by {
        assert forall|a: int, b: int, id: i64|
            0 <= a < b < tail.len() && #[trigger] slot_contains(tail[a], id) implies !(
        #[trigger] slot_contains(tail[b], id)) by {
            assert(tail[a] == slots[a + 1]);
            assert(tail[b] == slots[b + 1]);
        }
    }
    if k < 0 {
        assert forall|p: int, a: int|
            0 <= p < i && p < runes.len() && 0 <= a < tail.len() implies !slot_contains(
            #[trigger] tail[a],
            #[trigger] runes[p],
        ) by {
            assert(tail[a] == slots[a + 1]);
        }
        lemma_place_secondary_canonical(runes, tail, i);
        if place_secondary(runes, slots, i) is Some {
            let out = place_secondary(runes, slots, i)->0;
            assert forall|p: int| i <= p < out.1 implies exists|s: int|
                0 <= s < slots.len() && slot_contains(slots[s], #[trigger] out.0[p]) by {
                let s0 = choose|s0: int|
                    0 <= s0 < tail.len() && slot_contains(tail[s0], out.0[p]);
                assert(tail[s0] == slots[s0 + 1]);
                assert(slot_contains(slots[s0 + 1], out.0[p]));
            }
        }
        return;
    }
    if i >= runes.len() {
        return;
    }
    lemma_first_match_props(runes, slots[0]);
    assert(k >= i);
    let swapped = swap_seq(runes, k, i);
    assert(swapped.len() == runes.len());
    assert(swapped[i] == runes[k]);
    assert(forall|p: int| 0 <= p < i ==> swapped[p] == runes[p]);
    assert forall|p: int, a: int|
        0 <= p < i + 1 && p < swapped.len() && 0 <= a < tail.len() implies !slot_contains(
        #[trigger] tail[a],
        #[trigger] swapped[p],
    ) by {
        assert(tail[a] == slots[a + 1]);
        if p < i {
            assert(swapped[p] == runes[p]);
        } else {
            assert(swapped[i] == runes[k]);
            assert(slot_contains(slots[0], runes[k]));
        }
    }
    lemma_place_secondary_canonical(swapped, tail, i + 1);
    if place_secondary(runes, slots, i) is Some {
        let out = place_secondary(runes, slots, i)->0;
        assert(place_secondary(swapped, tail, i + 1) == Some(out));
        assert forall|p: int| i <= p < out.1 implies exists|s: int|
            0 <= s < slots.len() && slot_contains(slots[s], #[trigger] out.0[p]) by {
            if p == i {
                assert(out.0[i] == swapped[i]);
                assert(slot_contains(slots[0], out.0[i]));
            } else {
                let s0 = choose|s0: int|
                    0 <= s0 < tail.len() && slot_contains(tail[s0], out.0[p]);
                assert(tail[s0] == slots[s0 + 1]);
                assert(slot_contains(slots[s0 + 1], out.0[p]));
            }
        }
    }
}

/// Every successfully normalized rune page lies in canonical slot
/// order: nine runes; for each primary slot, in order, a rune of that
/// slot; then only runes of the secondary tree's optional slots; the
/// stat shards at the tail. Holds whenever no rune ID belongs to two of
/// the involved slots, as in the official reference data.
pub proof fn lemma_rune_page_canonical(data: Node, rd: RunesData)
    requires
        rune_page_issue(data, rd) is None,
        all_slots_disjoint(
            (find_tree_spec(rd.runes_data@, primary_tree_of(data)->0)->0).slots@
                + secondary_slots_of(find_tree_spec(rd.runes_data@, secondary_tree_of(data)->0)->0),
        ),
    ensures
        ordered_runes_of(data, rd).len() == 9,
        (find_tree_spec(rd.runes_data@, primary_tree_of(data)->0)->0).slots@.len()
            <= ordered_runes_of(data, rd).len(),
        ({
            let pslots = (find_tree_spec(rd.runes_data@, primary_tree_of(data)->0)->0).slots@;
            forall|j: int|
                0 <= j < pslots.len() ==> slot_contains(
                    #[trigger] pslots[j],
                    ordered_runes_of(data, rd)[j],
                )
        }),
{
    let ptree = find_tree_spec(rd.runes_data@, primary_tree_of(data)->0)->0;
    let stree = find_tree_spec(rd.runes_data@, secondary_tree_of(data)->0)->0;
    let pslots = ptree.slots@;
    let sslots = secondary_slots_of(stree);
    let both = pslots + sslots;
    let picks = raw_picks_of(data);
    assert(forall|j: int| 0 <= j < pslots.len() ==> both[j] == pslots[j]);
    assert(forall|s: int| 0 <= s < sslots.len() ==> both[pslots.len() + s] == sslots[s]);
    assert(all_slots_disjoint(pslots)) by {
        assert forall|a: int, b: int, id: i64|
            0 <= a < b < pslots.len() && #[trigger] slot_contains(pslots[a], id) implies !(
        #[trigger] slot_contains(pslots[b], id)) by {
            assert(both[a] == pslots[a]);
            assert(both[b] == pslots[b]);
        }
    }
    lemma_place_primary_canonical(picks, pslots, 0);
    let placed = place_primary(picks, pslots, 0)->0;
    assert(place_primary(picks, pslots, 0) is Some);
    assert(all_slots_disjoint(sslots)) by {
        assert forall|a: int, b: int, id: i64|
            0 <= a < b < sslots.len() && #[trigger] slot_contains(sslots[a], id) implies !(
        #[trigger] slot_contains(sslots[b], id)) by {
            assert(both[pslots.len() + a] == sslots[a]);
            assert(both[pslots.len() + b] == sslots[b]);
        }
    }
    assert forall|p: int, a: int|
        0 <= p < pslots.len() && p < placed.len() && 0 <= a < sslots.len() implies !slot_contains(
        #[trigger] sslots[a],
        #[trigger] placed[p],
    ) by {
        assert(slot_contains(pslots[p], placed[p]));
        assert(both[p] == pslots[p]);
        assert(both[pslots.len() + a] == sslots[a]);
        assert(p < pslots.len() + a + 1);
    }
    lemma_place_secondary_canonical(placed, sslots, pslots.len() as int);
    let placed2 = place_secondary(placed, sslots, pslots.len() as int)->0;
    assert(place_secondary(placed, sslots, pslots.len() as int) is Some);
    assert(placed2.0.len() + shard_list_of(data).len() == 9);
    assert(pslots.len() <= ordered_runes_of(data, rd).len()) by {
        if pslots.len() > 0 {
            assert(0 + pslots.len() <= placed.len());
            assert(placed2.0.len() == placed.len());
        }
    }
    assert forall|j: int| 0 <= j < pslots.len() implies slot_contains(
        #[trigger] pslots[j],
        ordered_runes_of(data, rd)[j],
    ) by {
        assert(slot_contains(pslots[j], placed[j]));
        assert(j < placed.len());
        assert(placed2.0[j] == placed[j]);
        assert(ordered_runes_of(data, rd)[j] == placed2.0[j]);
    }
}

/// An `i64` count clamped into `u32` range.
fn clamp_to_u32(v: i64) -> (r: u32)
    ensures
        r as nat == clamp_count(v),
{
    if v < 0 {
        0
    } else if v > 0xffff_ffff {
        0xffff_ffff
    } else {
        v as u32
    }
}

} // verus!
