//! Catalog assembly: isolation, determinism, and lookups.

use league_helper::BuildData;
use league_helper::Champion;
use league_helper::Image;
use league_helper::Info;
use league_helper::ItemSet;
use league_helper::LeagueHelperError;
use league_helper::Position;
use league_helper::RunePage;
use league_helper::SummonerSpells;
use league_helper::UggBuildData;

fn champion(key: i64, id: &str, name: &str) -> Champion {
    Champion {
        version: String::from("14.23.1"),
        id: String::from(id),
        key,
        name: String::from(name),
        title: String::new(),
        blurb: String::new(),
        info: Info { attack: 0, defense: 0, magic: 0, difficulty: 0 },
        image: Image {
            full: String::new(),
            sprite: String::new(),
            group: String::new(),
            x: 0,
            y: 0,
            w: 0,
            h: 0,
        },
        tags: Vec::new(),
        partype: String::new(),
    }
}

fn build(position: Position, win_rate: u64) -> BuildData {
    BuildData {
        position,
        rune_page: RunePage {
            runes: vec![1, 2, 3, 4, 5, 6, 7, 8, 9],
            primary_tree: 8100,
            secondary_tree: 8300,
            win_rate,
        },
        item_sets: vec![ItemSet { name: String::from("Starting Build"), items: vec![1055] }],
        skill_order: String::from("Q>W>E"),
        summoner_spells: SummonerSpells { spell1_id: 4, spell2_id: 7 },
    }
}

fn sample_fetch(
    shuffled: bool,
) -> Vec<(Champion, Result<Vec<Result<BuildData, LeagueHelperError>>, LeagueHelperError>)> {
    let a = (
        champion(1, "Annie", "Annie"),
        Ok(vec![
            Ok(build(Position::Mid, 300_000)),
            Ok(build(Position::Support, 420_000)),
            Err(LeagueHelperError::IncompleteRunePage),
        ]),
    );
    let b = (
        champion(10, "Kayle", "Kayle"),
        Ok(vec![Err(LeagueHelperError::IncompleteRunePage), Err(
            LeagueHelperError::new("bad role"),
        )]),
    );
    let c = (
        champion(5, "XinZhao", "Xin Zhao"),
        Ok(vec![Ok(build(Position::Jungle, 510_000))]),
    );
    let d: (
        Champion,
        Result<Vec<Result<BuildData, LeagueHelperError>>, LeagueHelperError>,
    ) = (
        champion(7, "Sion", "Sion"),
        Err(LeagueHelperError::TransportFailure(String::from("timed out"))),
    );
    if shuffled {
        vec![c, d, b, a]
    } else {
        vec![a, b, c, d]
    }
}

fn catalog_summary(data: &UggBuildData) -> Vec<(i64, Vec<(Position, u64)>)> {
    data.builds
        .iter()
        .map(|(ch, builds)| {
            (
                ch.key,
                builds
                    .iter()
                    .map(|b| (b.position, b.rune_page.win_rate))
                    .collect(),
            )
        })
        .collect()
}

#[test]
fn assembly_sorts_champions_and_builds() {
    let data = UggBuildData::assemble(String::from("14_23"), sample_fetch(false));
    assert_eq!(data.patch_version, "14_23");
    let summary = catalog_summary(&data);
    assert_eq!(
        summary,
        vec![
            (1, vec![(Position::Support, 420_000), (Position::Mid, 300_000)]),
            (5, vec![(Position::Jungle, 510_000)]),
            (10, vec![]),
        ]
    );
}

#[test]
fn failed_champion_fetch_is_dropped_entirely() {
    let data = UggBuildData::assemble(String::from("14_23"), sample_fetch(false));
    assert!(data.builds.iter().all(|(ch, _)| ch.key != 7));
}

#[test]
fn champion_with_no_surviving_roles_still_appears() {
    let data = UggBuildData::assemble(String::from("14_23"), sample_fetch(false));
    let entry = data.builds.iter().find(|(ch, _)| ch.key == 10).expect("present");
    assert!(entry.1.is_empty());
}

#[test]
fn assembly_is_deterministic_across_arrival_orders() {
    let one = UggBuildData::assemble(String::from("14_23"), sample_fetch(false));
    let two = UggBuildData::assemble(String::from("14_23"), sample_fetch(true));
    assert_eq!(catalog_summary(&one), catalog_summary(&two));
    let again = UggBuildData::assemble(String::from("14_23"), sample_fetch(false));
    assert_eq!(catalog_summary(&one), catalog_summary(&again));
}

#[test]
fn perks_page_lookup_builds_the_owned_page() {
    let data = UggBuildData::assemble(String::from("14_23"), sample_fetch(false));
    let page = data.get_perks_page(1, &Position::Mid).expect("page");
    assert_eq!(page.name, "[LH] Annie Mid");
    assert_eq!(page.primary_style_id, 8100);
    assert_eq!(page.sub_style_id, 8300);
    assert_eq!(page.selected_perk_ids, vec![1, 2, 3, 4, 5, 6, 7, 8, 9]);
    assert!(data.get_perks_page(1, &Position::Top).is_none());
    assert!(data.get_perks_page(99, &Position::Mid).is_none());
}

#[test]
fn summoner_spells_lookup() {
    let data = UggBuildData::assemble(String::from("14_23"), sample_fetch(false));
    let spells = data.get_summoner_spells(5, &Position::Jungle).expect("spells");
    assert_eq!(spells.spell1_id, 4);
    assert_eq!(spells.spell2_id, 7);
    assert!(data.get_summoner_spells(10, &Position::Mid).is_none());
}
