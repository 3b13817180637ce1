//! The session reconciliation state machine.
//!
//! One poll tick is decided here, as pure functions from snapshots to
//! plans: what to delete, what to create, which spells to submit, and
//! the next tracking state. Executing a plan against the live client —
//! and fetching the snapshots — happens outside the library; the
//! decisions themselves are verified, and applying the same selection
//! twice in a row is proved to plan no mutation the second time.

use vstd::prelude::*;

use crate::errors::LeagueHelperError;
use crate::perks_page::PerksPage;
use crate::position::Position;
use crate::summoner_spells::SummonerSpells;
use crate::ugg_build_data::UggBuildData;
use crate::ugg_build_data::find_build_spec;
use crate::ugg_build_data::find_champion_spec;

verus! {

/// The summoner spell held to the first slot by convention (Flash).
pub const FLASH_SPELL_ID: i64 = 4;

/// The live client's match-setup phase, as the reconciler reads it.
#[derive(Clone, Copy, Debug, PartialEq, Eq, Structural)]
pub enum GameFlowPhase {
    Lobby,
    InProgress,
    ChampSelect,
    Other,
}

/// One entry of the champion-select roster: who is picking what, and
/// the spells they currently hold.
#[derive(Debug, Clone)]
pub struct TeamPlayer {
    pub summoner_id: i64,
    pub champion_id: i64,
    pub spell1_id: i64,
    pub spell2_id: i64,
}

/// One existing rune page of the inventory snapshot.
#[derive(Debug, Clone)]
pub struct PageInfo {
    pub id: i64,
    pub name: String,
    pub is_deletable: bool,
}

/// The selection an apply committed: which champion, in which position.
#[derive(Debug, Clone, Copy, PartialEq, Eq, Structural)]
pub struct AppliedSelection {
    pub champion_id: i64,
    pub position: Position,
}

/// The reconciler's only state between ticks: the selection last
/// applied, if any. Reset whenever the session leaves champion select
/// or cannot be read, so a stale selection is never trusted.
#[derive(Debug, Clone, Copy, PartialEq, Eq, Structural)]
pub struct ReconcilerState {
    pub last_applied: Option<AppliedSelection>,
}

impl ReconcilerState {
    /// The initial state: nothing applied yet.
    pub fn new() -> (r: ReconcilerState)
        ensures
            r.last_applied is None,
    {
        ReconcilerState { last_applied: None }
    }
}

/// What a poll tick does once the phase is known.
#[derive(Clone, Copy, Debug, PartialEq, Eq, Structural)]
pub enum PhaseAction {
    /// Nothing to do this tick.
    Idle,
    /// Nothing to do, and the next poll should wait longer (a match is
    /// running).
    IdleBackoff,
    /// The session is in champion select: run the selection logic.
    RunChampSelect,
}

/// Decides one poll tick from the phase read, `None` standing for a
/// failed session fetch. Any result but champion select resets the
/// tracking state, so the next successful read re-applies.
pub fn on_phase(state: ReconcilerState, phase: Option<GameFlowPhase>) -> (r: (
    ReconcilerState,
    PhaseAction,
))
    ensures
        phase == Some(GameFlowPhase::ChampSelect) ==> r == (state, PhaseAction::RunChampSelect),
        phase == Some(GameFlowPhase::InProgress) ==> r == (
            ReconcilerState { last_applied: None },
            PhaseAction::IdleBackoff,
        ),
        (phase is None || phase == Some(GameFlowPhase::Lobby) || phase == Some(
            GameFlowPhase::Other,
        )) ==> r == (ReconcilerState { last_applied: None }, PhaseAction::Idle),
{
    match phase {
        Some(GameFlowPhase::ChampSelect) => (state, PhaseAction::RunChampSelect),
        Some(GameFlowPhase::InProgress) => (
            ReconcilerState { last_applied: None },
            PhaseAction::IdleBackoff,
        ),
        _ => (ReconcilerState { last_applied: None }, PhaseAction::Idle),
    }
}

/// Whether `id` occurs in the disallowed list.
pub open spec fn contains_id(s: Seq<i64>, id: i64) -> bool {
    exists|k: int| 0 <= k < s.len() && s[k] == id
}

/// The spell pair a tick submits, before slot normalization: an absent
/// disallow set (an unknown mode) leaves the player's spells untouched;
/// an empty set replaces both with the recommendation; a specific set
/// replaces only the recommended spells it does not name.
pub open spec fn reconciled_spells_spec(
    current: SummonerSpells,
    recommended: SummonerSpells,
    disallowed: Option<Seq<i64>>,
) -> SummonerSpells {
    match disallowed {
        None => current,
        Some(d) => {
            if d.len() == 0 {
                recommended
            } else {
                SummonerSpells {
                    spell1_id: if !contains_id(d, recommended.spell1_id) {
                        recommended.spell1_id
                    } else {
                        current.spell1_id
                    },
                    spell2_id: if !contains_id(d, recommended.spell2_id) {
                        recommended.spell2_id
                    } else {
                        current.spell2_id
                    },
                }
            }
        },
    }
}

/// The pair with Flash moved into the first slot, when it is held at
/// all.
pub open spec fn flash_first_spec(s: SummonerSpells) -> SummonerSpells {
    if s.spell2_id == FLASH_SPELL_ID {
        SummonerSpells { spell1_id: s.spell2_id, spell2_id: s.spell1_id }
    } else {
        s
    }
}

/// Whether `id` occurs in the list.
fn list_contains(s: &Vec<i64>, id: i64) -> (r: bool)
    ensures
        r == contains_id(s@, id),
{
    for k in 0..s.len()
        invariant
            forall|j: int| 0 <= j < k ==> s@[j] != id,
    {
        if s[k] == id {
            return true;
        }
    }
    false
}

/// Computes the spell pair to submit from the player's current spells,
/// the build's recommendation, and the game mode's disallow set.
pub fn reconcile_spells(
    current: &SummonerSpells,
    recommended: &SummonerSpells,
    disallowed: Option<&Vec<i64>>,
) -> (r: SummonerSpells)
    ensures
        disallowed matches Some(d) ==> r == reconciled_spells_spec(
            *current,
            *recommended,
            Some(d@),
        ),
        disallowed is None ==> r == reconciled_spells_spec(*current, *recommended, None),
{
    match disallowed {
        None => SummonerSpells { spell1_id: current.spell1_id, spell2_id: current.spell2_id },
        Some(d) => {
            if d.len() == 0 {
                SummonerSpells {
                    spell1_id: recommended.spell1_id,
                    spell2_id: recommended.spell2_id,
                }
            } else {
                let first = if !list_contains(d, recommended.spell1_id) {
                    recommended.spell1_id
                } else {
                    current.spell1_id
                };
                let second = if !list_contains(d, recommended.spell2_id) {
                    recommended.spell2_id
                } else {
                    current.spell2_id
                };
                SummonerSpells { spell1_id: first, spell2_id: second }
            }
        },
    }
}

/// Moves Flash into the first slot before the selection is submitted.
pub fn set_flash_first(spells: &mut SummonerSpells)
    ensures
        *final(spells) == flash_first_spec(*old(spells)),
{
    if spells.spell2_id == FLASH_SPELL_ID {
        let first = spells.spell1_id;
        spells.spell1_id = spells.spell2_id;
        spells.spell2_id = first;
    }
}

/// Whether a page name carries this tool's ownership marker.
pub open spec fn is_owned_name(name: Seq<char>) -> bool {
    name.len() >= 4 && name.subrange(0, 4) == "[LH]"@
}

/// Whether a page is a stale leftover this tool may delete: it carries
/// the ownership marker and the client lets it be deleted.
pub open spec fn is_stale_page(p: PageInfo) -> bool {
    is_owned_name(p.name@) && p.is_deletable
}

/// Whether a page name starts with the ownership marker.
fn has_marker(name: &str) -> (r: bool)
    ensures
        r == is_owned_name(name@),
{
    proof {
        reveal_strlit("[LH]");
    }
    let len = name.unicode_len();
    if len < 4 {
        return false;
    }
    let r = name.get_char(0) == '[' && name.get_char(1) == 'L' && name.get_char(2) == 'H'
        && name.get_char(3) == ']';
    proof {
        if r {
            assert(name@.subrange(0, 4) =~= "[LH]"@);
        } else {
            assert(name@.subrange(0, 4) != "[LH]"@) by {
                if name@.subrange(0, 4) == "[LH]"@ {
                    assert(name@.subrange(0, 4)[0] == name@[0]);
                    assert(name@.subrange(0, 4)[1] == name@[1]);
                    assert(name@.subrange(0, 4)[2] == name@[2]);
                    assert(name@.subrange(0, 4)[3] == name@[3]);
                }
            }
        }
    }
    r
}

/// The IDs of the stale owned pages, in inventory order.
pub open spec fn stale_ids_spec(pages: Seq<PageInfo>) -> Seq<i64>
    decreases pages.len(),
{
    if pages.len() == 0 {
        Seq::empty()
    } else {
        stale_ids_spec(pages.drop_last()) + (if is_stale_page(pages.last()) {
            seq![pages.last().id]
        } else {
            Seq::empty()
        })
    }
}

/// The inventory with the stale owned pages gone.
pub open spec fn remaining_after_cleanup(pages: Seq<PageInfo>) -> Seq<PageInfo>
    decreases pages.len(),
{
    if pages.len() == 0 {
        Seq::empty()
    } else {
        remaining_after_cleanup(pages.drop_last()) + (if is_stale_page(pages.last()) {
            Seq::empty()
        } else {
            seq![pages.last()]
        })
    }
}

/// The ID of the first page eviction would delete: an owned deletable
/// page if one is left, else the first deletable page at all.
pub open spec fn first_stale_id(pages: Seq<PageInfo>) -> Option<i64>
    decreases pages.len(),
{
    if pages.len() == 0 {
        None
    } else if is_stale_page(pages[0]) {
        Some(pages[0].id)
    } else {
        first_stale_id(pages.drop_first())
    }
}

/// The ID of the first deletable page, if any.
pub open spec fn first_deletable_id(pages: Seq<PageInfo>) -> Option<i64>
    decreases pages.len(),
{
    if pages.len() == 0 {
        None
    } else if pages[0].is_deletable {
        Some(pages[0].id)
    } else {
        first_deletable_id(pages.drop_first())
    }
}

/// The page eviction deletes when the inventory is full: the owned
/// deletable page that step one should already have removed (guarding a
/// race), else the first deletable page. `None` when nothing may be
/// deleted.
pub open spec fn evict_candidate(pages: Seq<PageInfo>) -> Option<i64> {
    match first_stale_id(pages) {
        Some(id) => Some(id),
        None => first_deletable_id(pages),
    }
}

/// The IDs of the stale owned pages, in inventory order.
pub fn stale_owned_pages(pages: &Vec<PageInfo>) -> (r: Vec<i64>)
    ensures
        r@ == stale_ids_spec(pages@),
{
    let mut out: Vec<i64> = Vec::new();
    proof {
        assert(stale_ids_spec(pages@.subrange(0, 0)) =~= Seq::<i64>::empty());
    }
    for k in 0..pages.len()
        invariant
            out@ == stale_ids_spec(pages@.subrange(0, k as int)),
    {
        let stale = has_marker(pages[k].name.as_str()) && pages[k].is_deletable;
        if stale {
            out.push(pages[k].id);
        }
        proof {
            let cur = pages@.subrange(0, k as int + 1);
            assert(cur.drop_last() =~= pages@.subrange(0, k as int));
            assert(cur.last() == pages@[k as int]);
        }
    }
    proof {
        assert(pages@.subrange(0, pages@.len() as int) =~= pages@);
    }
    out
}

/// The page eviction would delete, if any: an owned deletable page
/// first, else the first deletable page.
pub fn find_evict_candidate(pages: &Vec<PageInfo>) -> (r: Option<i64>)
    ensures
        r == evict_candidate(pages@),
{
    let ghost all = pages@;
    proof {
        assert(all.skip(0) =~= all);
    }
    for k in 0..pages.len()
        invariant
            all == pages@,
            first_stale_id(all) == first_stale_id(all.skip(k as int)),
    {
        proof {
            assert(all.skip(k as int).len() > 0);
            assert(all.skip(k as int)[0] == all[k as int]);
        }
        let stale = has_marker(pages[k].name.as_str()) && pages[k].is_deletable;
        if stale {
            return Some(pages[k].id);
        }
        proof {
            assert(all.skip(k as int).drop_first() =~= all.skip(k as int + 1));
        }
    }
    proof {
        assert(all.skip(all.len() as int).len() == 0);
        assert(first_stale_id(all) is None);
    }
    for k in 0..pages.len()
        invariant
            all == pages@,
            first_stale_id(all) is None,
            first_deletable_id(all) == first_deletable_id(all.skip(k as int)),
    {
        proof {
            assert(all.skip(k as int).len() > 0);
            assert(all.skip(k as int)[0] == all[k as int]);
        }
        if pages[k].is_deletable {
            return Some(pages[k].id);
        }
        proof {
            assert(all.skip(k as int).drop_first() =~= all.skip(k as int + 1));
        }
    }
    proof {
        assert(all.skip(all.len() as int).len() == 0);
        assert(first_deletable_id(all) is None);
    }
    None
}

/// Decides whether a page must be evicted to make room, and which.
/// With a free slot there is nothing to do; at capacity the eviction
/// candidate is deleted; at capacity with nothing deletable the apply
/// fails — a non-deletable page is never touched.
pub fn plan_eviction(pages: &Vec<PageInfo>, owned_page_count: i64, max_page_count: i64) -> (r:
    Result<Option<i64>, LeagueHelperError>)
    ensures
        owned_page_count < max_page_count ==> r == Ok::<Option<i64>, LeagueHelperError>(
            None::<i64>,
        ),
        owned_page_count >= max_page_count ==> match evict_candidate(pages@) {
            Some(id) => r == Ok::<Option<i64>, LeagueHelperError>(Some(id)),
            None => r == Err::<Option<i64>, _>(LeagueHelperError::InventoryFull),
        },
{
    if owned_page_count < max_page_count {
        return Ok(None);
    }
    match find_evict_candidate(pages) {
        Some(id) => Ok(Some(id)),
        None => Err(LeagueHelperError::InventoryFull),
    }
}

/// The mutations one apply performs on the page inventory: the pages to
/// delete, in order, then the page to create.
#[derive(Debug, Clone)]
pub struct PagePlan {
    pub delete_ids: Vec<i64>,
    pub create: PerksPage,
}

/// Whether the inventory, after the stale owned pages are gone, is at
/// capacity with nothing left to evict.
pub open spec fn inventory_stuck(pages: Seq<PageInfo>, max_page_count: i64) -> bool {
    remaining_after_cleanup(pages).len() >= max_page_count && evict_candidate(
        remaining_after_cleanup(pages),
    ) is None
}

/// Plans the whole page transaction against one inventory snapshot:
/// delete every stale owned page, then — if the remainder still fills
/// every slot — evict one deletable page, then create the target page.
/// At capacity the plan always deletes at least one page, so applying
/// it never grows a full inventory; with nothing deletable at capacity
/// the apply fails and no page is created.
pub fn reconcile_inventory(pages: &Vec<PageInfo>, max_page_count: i64, target: PerksPage) -> (r:
    Result<PagePlan, LeagueHelperError>)
    ensures
        r is Err <==> inventory_stuck(pages@, max_page_count),
        r is Err ==> r == Err::<PagePlan, _>(LeagueHelperError::InventoryFull),
        r matches Ok(plan) ==> {
            &&& plan.create == target
            &&& plan.delete_ids@ == stale_ids_spec(pages@) + (match evict_candidate(
                remaining_after_cleanup(pages@),
            ) {
                Some(id) => {
                    if remaining_after_cleanup(pages@).len() >= max_page_count {
                        seq![id]
                    } else {
                        Seq::<i64>::empty()
                    }
                },
                None => Seq::<i64>::empty(),
            })
            &&& pages@.len() >= max_page_count ==> plan.delete_ids@.len() >= 1
        },
{
    let mut delete_ids = stale_owned_pages(pages);
    let remaining = pages_without(pages);
    let at_capacity = max_page_count <= 0 || (remaining.len() as u64) >= (max_page_count as u64);
    if !at_capacity {
        proof {
            assert(delete_ids@ =~= stale_ids_spec(pages@) + Seq::<i64>::empty());
            lemma_stale_split_count(pages@);
        }
        return Ok(PagePlan { delete_ids, create: target });
    }
    match find_evict_candidate(&remaining) {
        None => Err(LeagueHelperError::InventoryFull),
        Some(id) => {
            delete_ids.push(id);
            proof {
                assert(delete_ids@ =~= stale_ids_spec(pages@) + seq![id]);
                lemma_stale_split_count(pages@);
            }
            Ok(PagePlan { delete_ids, create: target })
        },
    }
}

/// Cleaning up splits the inventory: every page is either deleted as
/// stale or remains, and the counts add up.
proof fn lemma_stale_split_count(pages: Seq<PageInfo>)
    ensures
        stale_ids_spec(pages).len() + remaining_after_cleanup(pages).len() == pages.len(),
    decreases pages.len(),
{
    if pages.len() > 0 {
        lemma_stale_split_count(pages.drop_last());
    }
}

/// The first roster entry belonging to a summoner, if any.
pub open spec fn find_player_spec(roster: Seq<TeamPlayer>, summoner_id: i64) -> Option<TeamPlayer>
    decreases roster.len(),
{
    if roster.len() == 0 {
        None
    } else if roster[0].summoner_id == summoner_id {
        Some(roster[0])
    } else {
        find_player_spec(roster.drop_first(), summoner_id)
    }
}

/// The first roster entry belonging to a summoner, if any.
pub fn find_player<'a>(roster: &'a Vec<TeamPlayer>, summoner_id: i64) -> (r: Option<
    &'a TeamPlayer,
>)
    ensures
        r matches Some(p) ==> find_player_spec(roster@, summoner_id) == Some(*p),
        r is None ==> find_player_spec(roster@, summoner_id) is None,
{
    let ghost all = roster@;
    proof {
        assert(all.skip(0) =~= all);
    }
    for k in 0..roster.len()
        invariant
            all == roster@,
            find_player_spec(all, summoner_id) == find_player_spec(all.skip(k as int), summoner_id),
    {
        proof {
            assert(all.skip(k as int).len() > 0);
            assert(all.skip(k as int)[0] == all[k as int]);
        }
        if roster[k].summoner_id == summoner_id {
            return Some(&roster[k]);
        }
        proof {
            assert(all.skip(k as int).drop_first() =~= all.skip(k as int + 1));
        }
    }
    proof {
        assert(all.skip(all.len() as int).len() == 0);
    }
    None
}

/// The build the catalog recommends for a champion and position.
pub open spec fn recommended_build_of(
    data: UggBuildData,
    champion_id: i64,
    position: Position,
) -> Option<crate::build_data::BuildData> {
    match find_champion_spec(data.builds@, champion_id) {
        None => None,
        Some(e) => find_build_spec(e.1@, position),
    }
}

/// What one champion-select tick decides to do.
#[derive(Clone, Copy, Debug, PartialEq, Eq, Structural)]
pub enum TickKind {
    /// Nothing to do: no roster entry, no pick yet, or this selection
    /// was already applied.
    Skip,
    /// The catalog holds no build for the selection.
    NoBuild,
    /// The inventory is at capacity with nothing deletable.
    Full,
    /// A page and a spell selection are to be applied.
    Apply,
}

/// The tick's decision, from the snapshots alone: skip when the roster
/// has no entry for the summoner, no champion is picked yet, or this
/// very selection was applied before; report a missing build; report a
/// stuck inventory; otherwise apply.
pub open spec fn tick_action_kind(
    state: ReconcilerState,
    roster: Seq<TeamPlayer>,
    my_summoner_id: i64,
    position: Position,
    data: UggBuildData,
    pages: Seq<PageInfo>,
    max_page_count: i64,
) -> TickKind {
    match find_player_spec(roster, my_summoner_id) {
        None => TickKind::Skip,
        Some(p) => {
            if p.champion_id == 0 {
                TickKind::Skip
            } else if state.last_applied == Some(
                AppliedSelection { champion_id: p.champion_id, position },
            ) {
                TickKind::Skip
            } else if recommended_build_of(data, p.champion_id, position) is None {
                TickKind::NoBuild
            } else if inventory_stuck(pages, max_page_count) {
                TickKind::Full
            } else {
                TickKind::Apply
            }
        },
    }
}

/// The tracking state after a tick: advanced only by an apply, exactly
/// to the selection applied.
pub open spec fn tick_next_state(
    state: ReconcilerState,
    roster: Seq<TeamPlayer>,
    my_summoner_id: i64,
    position: Position,
    data: UggBuildData,
    pages: Seq<PageInfo>,
    max_page_count: i64,
) -> ReconcilerState {
    if tick_action_kind(state, roster, my_summoner_id, position, data, pages, max_page_count)
        == TickKind::Apply {
        ReconcilerState {
            last_applied: Some(
                AppliedSelection {
                    champion_id: find_player_spec(roster, my_summoner_id)->0.champion_id,
                    position,
                },
            ),
        }
    } else {
        state
    }
}

/// The spells a tick reconciles against, as ghost values.
pub open spec fn disallowed_view(d: Option<&Vec<i64>>) -> Option<Seq<i64>> {
    match d {
        Some(v) => Some(v@),
        None => None,
    }
}

/// The mutations one apply performs: the page transaction and the spell
/// selection to submit.
#[derive(Debug, Clone)]
pub struct ApplyPlan {
    pub page_plan: PagePlan,
    pub selection: SummonerSpells,
}

/// What one champion-select tick asks the caller to do.
#[derive(Debug, Clone)]
pub enum TickOutcome {
    /// Issue no mutation this tick.
    NoAction,
    /// Delete the planned pages, create the planned page, and submit
    /// the planned spell selection.
    Apply(ApplyPlan),
}

/// Decides one champion-select tick from fresh snapshots: the roster,
/// the catalog, the game mode's disallowed spells, and the page
/// inventory. Returns the plan and the next tracking state; failures
/// never advance the state, so the next tick retries.
pub fn champ_select_plan(
    state: &ReconcilerState,
    roster: &Vec<TeamPlayer>,
    my_summoner_id: i64,
    position: Position,
    data: &UggBuildData,
    disallowed: Option<&Vec<i64>>,
    pages: &Vec<PageInfo>,
    max_page_count: i64,
) -> (r: (Result<TickOutcome, LeagueHelperError>, ReconcilerState))
    ensures
        r.1 == tick_next_state(
            *state,
            roster@,
            my_summoner_id,
            position,
            *data,
            pages@,
            max_page_count,
        ),
        ({
            let kind = tick_action_kind(
                *state,
                roster@,
                my_summoner_id,
                position,
                *data,
                pages@,
                max_page_count,
            );
            &&& (kind == TickKind::Skip <==> r.0 matches Ok(TickOutcome::NoAction))
            &&& (kind == TickKind::NoBuild <==> r.0 == Err::<TickOutcome, _>(
                LeagueHelperError::NoBuildFound,
            ))
            &&& (kind == TickKind::Full <==> r.0 == Err::<TickOutcome, _>(
                LeagueHelperError::InventoryFull,
            ))
            &&& (kind == TickKind::Apply <==> r.0 matches Ok(TickOutcome::Apply(_)))
            &&& (r.0 matches Ok(TickOutcome::Apply(plan)) ==> {
                let p = find_player_spec(roster@, my_summoner_id)->0;
                let entry = find_champion_spec(data.builds@, p.champion_id)->0;
                let b = recommended_build_of(*data, p.champion_id, position)->0;
                &&& plan.page_plan.create.name@ == "[LH] "@ + entry.0.name@ + " "@
                    + position.name_spec()
                &&& plan.page_plan.create.primary_style_id == b.rune_page.primary_tree
                &&& plan.page_plan.create.sub_style_id == b.rune_page.secondary_tree
                &&& plan.page_plan.create.selected_perk_ids@ == b.rune_page.runes@
                &&& plan.page_plan.delete_ids@ == stale_ids_spec(pages@) + (match evict_candidate(
                    remaining_after_cleanup(pages@),
                ) {
                    Some(id) => {
                        if remaining_after_cleanup(pages@).len() >= max_page_count {
                            seq![id]
                        } else {
                            Seq::<i64>::empty()
                        }
                    },
                    None => Seq::<i64>::empty(),
                })
                &&& plan.selection == flash_first_spec(
                    reconciled_spells_spec(
                        SummonerSpells { spell1_id: p.spell1_id, spell2_id: p.spell2_id },
                        b.summoner_spells,
                        disallowed_view(disallowed),
                    ),
                )
            })
        }),
{
    let player = match find_player(roster, my_summoner_id) {
        Some(p) => p,
        None => {
            return (Ok(TickOutcome::NoAction), *state);
        },
    };
    if player.champion_id == 0 {
        return (Ok(TickOutcome::NoAction), *state);
    }
    let already = match state.last_applied {
        Some(a) => a.champion_id == player.champion_id && a.position == position,
        None => false,
    };
    if already {
        return (Ok(TickOutcome::NoAction), *state);
    }
    let page = match data.get_perks_page(player.champion_id, &position) {
        Some(p) => p,
        None => {
            return (Err(LeagueHelperError::NoBuildFound), *state);
        },
    };
    let recommended = match data.get_summoner_spells(player.champion_id, &position) {
        Some(s) => s,
        None => {
            return (Err(LeagueHelperError::NoBuildFound), *state);
        },
    };
    let page_plan = match reconcile_inventory(pages, max_page_count, page) {
        Ok(p) => p,
        Err(e) => {
            return (Err(e), *state);
        },
    };
    let current = SummonerSpells { spell1_id: player.spell1_id, spell2_id: player.spell2_id };
    let mut selection = reconcile_spells(&current, recommended, disallowed);
    set_flash_first(&mut selection);
    let next = ReconcilerState {
        last_applied: Some(
            AppliedSelection { champion_id: player.champion_id, position },
        ),
    };
    (Ok(TickOutcome::Apply(ApplyPlan { page_plan, selection })), next)
}

/// Applying a selection makes the very next tick for the same
/// selection a no-op: after an apply for a champion and position, a
/// second tick that still sees that champion and position — whatever
/// the inventory now holds — plans no mutation and leaves the state
/// unchanged.
pub proof fn lemma_second_tick_plans_nothing(
    state: ReconcilerState,
    roster: Seq<TeamPlayer>,
    my_summoner_id: i64,
    position: Position,
    data: UggBuildData,
    pages: Seq<PageInfo>,
    max_page_count: i64,
    pages_later: Seq<PageInfo>,
)
    requires
        tick_action_kind(state, roster, my_summoner_id, position, data, pages, max_page_count)
            == TickKind::Apply,
    ensures
        ({
            let next = tick_next_state(
                state,
                roster,
                my_summoner_id,
                position,
                data,
                pages,
                max_page_count,
            );
            &&& tick_action_kind(
                next,
                roster,
                my_summoner_id,
                position,
                data,
                pages_later,
                max_page_count,
            ) == TickKind::Skip
            &&& tick_next_state(
                next,
                roster,
                my_summoner_id,
                position,
                data,
                pages_later,
                max_page_count,
            ) == next
        }),
{
}

/// The pages that cleanup leaves: those that are not stale.
fn pages_without(pages: &Vec<PageInfo>) -> (r: Vec<PageInfo>)
    ensures
        r@ == remaining_after_cleanup(pages@),
{
    let mut out: Vec<PageInfo> = Vec::new();
    proof {
        assert(remaining_after_cleanup(pages@.subrange(0, 0)) =~= Seq::<PageInfo>::empty());
    }
    for k in 0..pages.len()
        invariant
            out@ == remaining_after_cleanup(pages@.subrange(0, k as int)),
    {
        let stale_here = has_marker(pages[k].name.as_str()) && pages[k].is_deletable;
        if !stale_here {
            out.push(
                PageInfo {
                    id: pages[k].id,
                    name: pages[k].name.clone(),
                    is_deletable: pages[k].is_deletable,
                },
            );
            proof {
                assert(out@.last() == pages@[k as int]);
            }
        }
        proof {
            let cur = pages@.subrange(0, k as int + 1);
            assert(cur.drop_last() =~= pages@.subrange(0, k as int));
            assert(cur.last() == pages@[k as int]);
        }
    }
    proof {
        assert(pages@.subrange(0, pages@.len() as int) =~= pages@);
    }
    out
}

} // verus!
