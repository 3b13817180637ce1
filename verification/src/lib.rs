//! A verified core for a League of Legends build assistant.
//!
//! The library normalizes positional vendor build data into typed build
//! records, ranks them with a fixed-point Wilson confidence score, assembles
//! a deterministic per-patch build catalog, and decides how a live
//! champion-select session (rune pages and summoner spells) is reconciled
//! with the catalog's recommendation.

mod build_data;
mod ddragon_champions;
mod ddragon_runes_reforged;
mod endpoints;
mod errors;
mod item_set;
mod league_item_set;
mod node;
mod perks_page;
mod position;
mod reconciler;
mod rune_page;
mod summoner_spells;
mod ugg_build_data;
mod ugg_client;
mod ugg_role_data;
mod util;

pub use build_data::BuildData;
pub use ddragon_champions::Champion;
pub use ddragon_champions::ChampionData;
pub use ddragon_champions::Image;
pub use ddragon_champions::Info;
pub use ddragon_runes_reforged::Rune;
pub use ddragon_runes_reforged::RuneData;
pub use ddragon_runes_reforged::RunesData;
pub use ddragon_runes_reforged::Slot;
pub use endpoints::DDragonEndpoint;
pub use endpoints::UggEndpoint;
pub use errors::ErrorExt;
pub use errors::LeagueHelperError;
pub use item_set::ItemSet;
pub use league_item_set::Block;
pub use league_item_set::Item;
pub use league_item_set::LeagueItemSet;
pub use league_item_set::build_file_name;
pub use league_item_set::is_owned_build_file;
pub use league_item_set::item_sets_with_skill_order;
pub use node::Node;
pub use perks_page::PerksPage;
pub use position::Position;
pub use reconciler::AppliedSelection;
pub use reconciler::ApplyPlan;
pub use reconciler::GameFlowPhase;
pub use reconciler::PageInfo;
pub use reconciler::PagePlan;
pub use reconciler::PhaseAction;
pub use reconciler::ReconcilerState;
pub use reconciler::TeamPlayer;
pub use reconciler::TickKind;
pub use reconciler::TickOutcome;
pub use reconciler::FLASH_SPELL_ID;
pub use reconciler::champ_select_plan;
pub use reconciler::find_evict_candidate;
pub use reconciler::find_player;
pub use reconciler::lemma_second_tick_plans_nothing;
pub use reconciler::on_phase;
pub use reconciler::plan_eviction;
pub use reconciler::reconcile_inventory;
pub use reconciler::reconcile_spells;
pub use reconciler::set_flash_first;
pub use reconciler::stale_owned_pages;
pub use rune_page::RunePage;
pub use summoner_spells::SummonerSpells;
pub use ugg_build_data::UggBuildData;
pub use ugg_build_data::lemma_catalog_determinism;
pub use ugg_build_data::sorted_builds;
pub use ugg_build_data::sorted_catalog;
pub use ugg_client::extract_patch_version;
pub use ugg_client::get_champion_data;
pub use ugg_role_data::UggRoleData;
pub use ugg_role_data::lemma_place_primary_canonical;
pub use ugg_role_data::lemma_place_secondary_canonical;
pub use ugg_role_data::lemma_rune_page_canonical;
pub use util::calc_win_rate;
pub use util::lemma_win_rate_monotonic;
pub use util::parse_i64;
pub use util::win_rate_spec;
pub use util::WIN_RATE_SCALE;
