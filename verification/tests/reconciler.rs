//! The session state machine: phase handling, spell reconciliation,
//! page-inventory reconciliation, and tick idempotence.

use league_helper::BuildData;
use league_helper::Champion;
use league_helper::GameFlowPhase;
use league_helper::Image;
use league_helper::Info;
use league_helper::ItemSet;
use league_helper::LeagueHelperError;
use league_helper::PageInfo;
use league_helper::PerksPage;
use league_helper::PhaseAction;
use league_helper::Position;
use league_helper::ReconcilerState;
use league_helper::RunePage;
use league_helper::SummonerSpells;
use league_helper::TeamPlayer;
use league_helper::TickOutcome;
use league_helper::UggBuildData;
use league_helper::champ_select_plan;
use league_helper::on_phase;
use league_helper::plan_eviction;
use league_helper::reconcile_inventory;
use league_helper::reconcile_spells;
use league_helper::set_flash_first;
use league_helper::stale_owned_pages;

fn page(id: i64, name: &str, is_deletable: bool) -> PageInfo {
    PageInfo { id, name: String::from(name), is_deletable }
}

fn target_page() -> PerksPage {
    PerksPage {
        name: String::from("[LH] Annie Mid"),
        primary_style_id: 8100,
        sub_style_id: 8300,
        selected_perk_ids: vec![1, 2, 3, 4, 5, 6, 7, 8, 9],
    }
}

#[test]
fn phases_reset_tracking_outside_champ_select() {
    let tracking = ReconcilerState {
        last_applied: Some(league_helper::AppliedSelection {
            champion_id: 1,
            position: Position::Mid,
        }),
    };
    let (s, a) = on_phase(tracking, Some(GameFlowPhase::Lobby));
    assert!(s.last_applied.is_none());
    assert_eq!(a, PhaseAction::Idle);
    let (s, a) = on_phase(tracking, Some(GameFlowPhase::InProgress));
    assert!(s.last_applied.is_none());
    assert_eq!(a, PhaseAction::IdleBackoff);
    let (s, a) = on_phase(tracking, None);
    assert!(s.last_applied.is_none());
    assert_eq!(a, PhaseAction::Idle);
    let (s, a) = on_phase(tracking, Some(GameFlowPhase::ChampSelect));
    assert_eq!(s, tracking);
    assert_eq!(a, PhaseAction::RunChampSelect);
}

#[test]
fn spells_untouched_when_mode_unknown() {
    let current = SummonerSpells { spell1_id: 11, spell2_id: 7 };
    let recommended = SummonerSpells { spell1_id: 4, spell2_id: 7 };
    let r = reconcile_spells(&current, &recommended, None);
    assert_eq!(r, current);
}

#[test]
fn spells_replaced_when_nothing_disallowed() {
    let current = SummonerSpells { spell1_id: 11, spell2_id: 7 };
    let recommended = SummonerSpells { spell1_id: 4, spell2_id: 12 };
    let empty: Vec<i64> = Vec::new();
    let r = reconcile_spells(&current, &recommended, Some(&empty));
    assert_eq!(r, recommended);
}

#[test]
fn disallowed_flash_keeps_current_first_slot() {
    // Disallow set {4} (Flash), recommendation {4, 7}, current {11, 7}:
    // the first slot keeps the equipped 11, the second takes 7.
    let current = SummonerSpells { spell1_id: 11, spell2_id: 7 };
    let recommended = SummonerSpells { spell1_id: 4, spell2_id: 7 };
    let disallowed = vec![4];
    let mut r = reconcile_spells(&current, &recommended, Some(&disallowed));
    assert_eq!(r, SummonerSpells { spell1_id: 11, spell2_id: 7 });
    set_flash_first(&mut r);
    assert_eq!(r, SummonerSpells { spell1_id: 11, spell2_id: 7 });
}

#[test]
fn flash_moves_to_the_first_slot() {
    let mut spells = SummonerSpells { spell1_id: 7, spell2_id: 4 };
    set_flash_first(&mut spells);
    assert_eq!(spells, SummonerSpells { spell1_id: 4, spell2_id: 7 });
    let mut already = SummonerSpells { spell1_id: 4, spell2_id: 7 };
    set_flash_first(&mut already);
    assert_eq!(already, SummonerSpells { spell1_id: 4, spell2_id: 7 });
}

#[test]
fn stale_pages_are_the_marked_deletable_ones() {
    let pages = vec![
        page(1, "[LH] Annie Mid", true),
        page(2, "My page", true),
        page(3, "[LH] Kayle Top", false),
        page(4, "[LH] Old", true),
    ];
    assert_eq!(stale_owned_pages(&pages), vec![1, 4]);
}

#[test]
fn eviction_prefers_marked_pages_then_first_deletable() {
    let pages = vec![
        page(1, "Keeper", false),
        page(2, "Mine", true),
        page(3, "[LH] Leftover", true),
    ];
    assert_eq!(plan_eviction(&pages, 3, 3), Ok(Some(3)));
    let unmarked = vec![page(1, "Keeper", false), page(2, "Mine", true)];
    assert_eq!(plan_eviction(&unmarked, 2, 2), Ok(Some(2)));
    assert_eq!(plan_eviction(&unmarked, 1, 2), Ok(None));
    let locked = vec![page(1, "Keeper", false)];
    assert_eq!(
        plan_eviction(&locked, 1, 1),
        Err(LeagueHelperError::InventoryFull)
    );
}

#[test]
fn full_inventory_with_owned_page_does_not_grow() {
    // At capacity with one owner-marked deletable page: the apply
    // succeeds and the owned-page count does not increase.
    let pages = vec![
        page(1, "[LH] Annie Mid", true),
        page(2, "Mine", false),
        page(3, "Other", false),
    ];
    let max = 3i64;
    let plan = reconcile_inventory(&pages, max, target_page()).expect("plan");
    assert!(plan.delete_ids.len() >= 1);
    let after = pages.len() - plan.delete_ids.len() + 1;
    assert!(after <= pages.len());
    assert!(after as i64 <= max);
    assert_eq!(plan.create.name, "[LH] Annie Mid");
}

#[test]
fn full_inventory_without_deletable_pages_fails() {
    let pages = vec![page(1, "Mine", false), page(2, "Other", false)];
    let r = reconcile_inventory(&pages, 2, target_page());
    match r {
        Err(LeagueHelperError::InventoryFull) => {}
        other => panic!("unexpected result: {:?}", other),
    }
}

#[test]
fn free_slot_only_cleans_up_stale_pages() {
    let pages = vec![page(1, "[LH] Old", true), page(2, "Mine", true)];
    let plan = reconcile_inventory(&pages, 5, target_page()).expect("plan");
    assert_eq!(plan.delete_ids, vec![1]);
}

fn champion(key: i64, id: &str, name: &str) -> Champion {
    Champion {
        version: String::new(),
        id: String::from(id),
        key,
        name: String::from(name),
        title: String::new(),
        blurb: String::new(),
        info: Info { attack: 0, defense: 0, magic: 0, difficulty: 0 },
        image: Image {
            full: String::new(),
            sprite: String::new(),
            group: String::new(),
            x: 0,
            y: 0,
            w: 0,
            h: 0,
        },
        tags: Vec::new(),
        partype: String::new(),
    }
}

fn catalog() -> UggBuildData {
    let build = BuildData {
        position: Position::Mid,
        rune_page: RunePage {
            runes: vec![1, 2, 3, 4, 5, 6, 7, 8, 9],
            primary_tree: 8100,
            secondary_tree: 8300,
            win_rate: 391_802,
        },
        item_sets: vec![ItemSet { name: String::from("Starting Build"), items: vec![1055] }],
        skill_order: String::from("Q>W>E"),
        summoner_spells: SummonerSpells { spell1_id: 4, spell2_id: 7 },
    };
    UggBuildData::assemble(
        String::from("14_23"),
        vec![(champion(1, "Annie", "Annie"), Ok(vec![Ok(build)]))],
    )
}

#[test]
fn second_tick_with_same_selection_plans_nothing() {
    let data = catalog();
    let roster = vec![TeamPlayer { summoner_id: 42, champion_id: 1, spell1_id: 11, spell2_id: 7 }];
    let pages = vec![page(9, "Mine", true)];
    let state = ReconcilerState { last_applied: None };

    let (first, state_after) = champ_select_plan(
        &state,
        &roster,
        42,
        Position::Mid,
        &data,
        None,
        &pages,
        5,
    );
    let outcome = first.expect("first tick applies");
    assert!(matches!(outcome, TickOutcome::Apply(_)));
    assert!(state_after.last_applied.is_some());

    // The second tick sees the identical selection and catalog: zero
    // inventory or selection mutations are planned.
    let (second, state_final) = champ_select_plan(
        &state_after,
        &roster,
        42,
        Position::Mid,
        &data,
        None,
        &pages,
        5,
    );
    assert!(matches!(second, Ok(TickOutcome::NoAction)));
    assert_eq!(state_final, state_after);
}

#[test]
fn tick_applies_page_and_spells() {
    let data = catalog();
    let roster = vec![TeamPlayer { summoner_id: 42, champion_id: 1, spell1_id: 11, spell2_id: 4 }];
    let pages = vec![page(9, "[LH] Annie Mid", true)];
    let state = ReconcilerState { last_applied: None };
    let disallowed: Vec<i64> = Vec::new();

    let (r, next) = champ_select_plan(
        &state,
        &roster,
        42,
        Position::Mid,
        &data,
        Some(&disallowed),
        &pages,
        1,
    );
    match r.expect("applies") {
        TickOutcome::Apply(plan) => {
            assert_eq!(plan.page_plan.delete_ids, vec![9]);
            assert_eq!(plan.page_plan.create.name, "[LH] Annie Mid");
            assert_eq!(plan.page_plan.create.selected_perk_ids.len(), 9);
            // Empty disallow set: both spells replaced, then Flash
            // pinned to the first slot.
            assert_eq!(
                plan.selection,
                SummonerSpells { spell1_id: 4, spell2_id: 7 }
            );
        }
        TickOutcome::NoAction => panic!("expected an apply"),
    }
    assert_eq!(
        next.last_applied,
        Some(league_helper::AppliedSelection { champion_id: 1, position: Position::Mid })
    );
}

#[test]
fn tick_without_pick_or_roster_entry_is_noop() {
    let data = catalog();
    let state = ReconcilerState { last_applied: None };
    let pages: Vec<PageInfo> = Vec::new();

    let absent: Vec<TeamPlayer> = Vec::new();
    let (r, next) = champ_select_plan(&state, &absent, 42, Position::Mid, &data, None, &pages, 5);
    assert!(matches!(r, Ok(TickOutcome::NoAction)));
    assert_eq!(next, state);

    let unpicked = vec![TeamPlayer { summoner_id: 42, champion_id: 0, spell1_id: 0, spell2_id: 0 }];
    let (r, next) = champ_select_plan(&state, &unpicked, 42, Position::Mid, &data, None, &pages, 5);
    assert!(matches!(r, Ok(TickOutcome::NoAction)));
    assert_eq!(next, state);
}

#[test]
fn tick_without_build_reports_no_build_found() {
    let data = catalog();
    let roster = vec![TeamPlayer { summoner_id: 42, champion_id: 2, spell1_id: 11, spell2_id: 7 }];
    let pages: Vec<PageInfo> = Vec::new();
    let state = ReconcilerState { last_applied: None };
    let (r, next) = champ_select_plan(&state, &roster, 42, Position::Mid, &data, None, &pages, 5);
    assert_eq!(r.unwrap_err(), LeagueHelperError::NoBuildFound);
    assert_eq!(next, state);
}

#[test]
fn tick_with_stuck_inventory_reports_full_and_keeps_state() {
    let data = catalog();
    let roster = vec![TeamPlayer { summoner_id: 42, champion_id: 1, spell1_id: 11, spell2_id: 7 }];
    let pages = vec![page(1, "Keeper", false)];
    let state = ReconcilerState { last_applied: None };
    let (r, next) = champ_select_plan(&state, &roster, 42, Position::Mid, &data, None, &pages, 1);
    assert_eq!(r.unwrap_err(), LeagueHelperError::InventoryFull);
    assert_eq!(next, state);
}
