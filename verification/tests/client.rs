//! Raw payload handling: JSON parsing, patch-version discovery,
//! endpoint URLs, and the exported item-set projection.

use league_helper::Block;
use league_helper::Champion;
use league_helper::DDragonEndpoint;
use league_helper::Image;
use league_helper::Info;
use league_helper::Item;
use league_helper::ItemSet;
use league_helper::LeagueHelperError;
use league_helper::LeagueItemSet;
use league_helper::Position;
use league_helper::Rune;
use league_helper::RuneData;
use league_helper::RunesData;
use league_helper::Slot;
use league_helper::SummonerSpells;
use league_helper::BuildData;
use league_helper::RunePage;
use league_helper::UggEndpoint;
use league_helper::build_file_name;
use league_helper::extract_patch_version;
use league_helper::get_champion_data;
use league_helper::is_owned_build_file;
use league_helper::item_sets_with_skill_order;
use league_helper::parse_i64;

fn rune(id: i64) -> Rune {
    Rune {
        id,
        key: String::new(),
        icon: String::new(),
        name: String::new(),
        short_desc: String::new(),
        long_desc: String::new(),
    }
}

fn slot(ids: &[i64]) -> Slot {
    Slot { runes: ids.iter().map(|id| rune(*id)).collect() }
}

fn reference() -> RunesData {
    RunesData {
        runes_data: vec![
            RuneData {
                id: 8100,
                key: String::new(),
                icon: String::new(),
                name: String::new(),
                slots: vec![
                    slot(&[8126]),
                    slot(&[8210]),
                    slot(&[8220]),
                    slot(&[8230]),
                ],
            },
            RuneData {
                id: 8300,
                key: String::new(),
                icon: String::new(),
                name: String::new(),
                slots: vec![slot(&[8400]), slot(&[8139]), slot(&[8500])],
            },
        ],
    }
}

fn champion(key: i64, id: &str, name: &str) -> Champion {
    Champion {
        version: String::new(),
        id: String::from(id),
        key,
        name: String::from(name),
        title: String::new(),
        blurb: String::new(),
        info: Info { attack: 0, defense: 0, magic: 0, difficulty: 0 },
        image: Image {
            full: String::new(),
            sprite: String::new(),
            group: String::new(),
            x: 0,
            y: 0,
            w: 0,
            h: 0,
        },
        tags: Vec::new(),
        partype: String::new(),
    }
}

/// One vendor role node as raw JSON.
fn role_json() -> String {
    String::from(
        "[[[100,60,8100,8300,[8139,8230,8126,8210,8220,8500]],\
          [null,null,[4,7]],\
          [60,100,[1055,2003]],\
          [30,50,[3006,3031]],\
          [null,null,null,\"QWEQ\"],\
          [[[3020,12],[3089,7]]],\
          null,null,\
          [null,null,[\"5008\",\"5002\",\"5003\"]]]]",
    )
}

#[test]
fn champion_data_normalizes_from_raw_text() {
    let payload = format!("{{\"12\":{{\"10\":{{\"5\":{}}}}}}}", role_json());
    let annie = champion(1, "Annie", "Annie");
    let builds = get_champion_data(&payload, &annie, &reference()).expect("parses");
    assert_eq!(builds.len(), 1);
    let build = builds[0].as_ref().expect("normalizes");
    assert_eq!(build.position, Position::Mid);
    assert_eq!(
        build.rune_page.runes,
        vec![8126, 8210, 8220, 8230, 8139, 8500, 5008, 5002, 5003]
    );
    assert_eq!(build.rune_page.win_rate, 391_802);
    assert_eq!(build.skill_order, "Q>W>E>Q");
    assert_eq!(build.summoner_spells, SummonerSpells { spell1_id: 4, spell2_id: 7 });
    assert_eq!(build.item_sets.len(), 3);
}

#[test]
fn champion_data_isolates_bad_roles() {
    // Position 5 normalizes; position 1 is missing everything.
    let payload = format!(
        "{{\"12\":{{\"10\":{{\"5\":{},\"1\":[[]]}}}}}}",
        role_json()
    );
    let annie = champion(1, "Annie", "Annie");
    let builds = get_champion_data(&payload, &annie, &reference()).expect("parses");
    assert_eq!(builds.len(), 2);
    assert_eq!(builds.iter().filter(|b| b.is_ok()).count(), 1);
    let err = builds
        .iter()
        .find(|b| b.is_err())
        .unwrap()
        .as_ref()
        .unwrap_err();
    // The dropped record names its champion and position.
    let message = match err {
        LeagueHelperError::Other(m) => m.clone(),
        other => panic!("unexpected error: {:?}", other),
    };
    assert!(message.starts_with("Annie Jungle - "), "got: {}", message);
}

#[test]
fn champion_data_without_entries_fails() {
    let annie = champion(1, "Annie", "Annie");
    let err = get_champion_data("{\"12\":{\"10\":{}}}", &annie, &reference()).unwrap_err();
    assert_eq!(err, LeagueHelperError::Other(String::from("No build data found.")));
    let err = get_champion_data("not json at all", &annie, &reference()).unwrap_err();
    assert_eq!(
        err,
        LeagueHelperError::Other(String::from("Failed to parse build data"))
    );
}

#[test]
fn patch_version_extracted_from_home_page() {
    let home = "<script>window.__SSR_DATA__ = {\"https://static.bigbrain.gg/assets/lol/riot_patch_update/prod/versions.json\":{\"data\":[\"14.23.1\",\"14.22.1\"]}}</script>";
    assert_eq!(extract_patch_version(home).expect("version"), "14_23");
}

#[test]
fn patch_version_missing_blob_is_unavailable() {
    let err = extract_patch_version("<html>nothing here</html>").unwrap_err();
    assert_eq!(err, LeagueHelperError::VersionUnavailable);
    let no_minor = "window.__SSR_DATA__ = {\"https://static.bigbrain.gg/assets/lol/riot_patch_update/prod/versions.json\":{\"data\":[\"14\"]}}";
    assert_eq!(
        extract_patch_version(no_minor).unwrap_err(),
        LeagueHelperError::VersionUnavailable
    );
}

#[test]
fn endpoint_urls() {
    assert_eq!(
        DDragonEndpoint::Version.url(),
        "https://ddragon.leagueoflegends.com/api/versions.json"
    );
    assert_eq!(
        DDragonEndpoint::ChampionData("14.23.1").url(),
        "https://ddragon.leagueoflegends.com/cdn/14.23.1/data/en_US/champion.json"
    );
    assert_eq!(
        DDragonEndpoint::RunesData("14.23.1").url(),
        "https://ddragon.leagueoflegends.com/cdn/14.23.1/data/en_US/runesReforged.json"
    );
    assert_eq!(UggEndpoint::HomePage.url(), "https://u.gg");
    assert_eq!(UggEndpoint::BaseUrl("1.5").url(), "https://stats2.u.gg/lol/1.5");
    assert_eq!(
        UggEndpoint::ChampionData("14_23", 266, "1.5.0").url(),
        "/overview/14_23/ranked_solo_5x5/266/1.5.0.json"
    );
}

#[test]
fn parse_i64_matches_std() {
    let cases = [
        "0",
        "42",
        "-17",
        "+9",
        "5008",
        "",
        "-",
        "+",
        "12a",
        " 12",
        "9223372036854775807",
        "9223372036854775808",
        "-9223372036854775808",
        "-9223372036854775809",
        "+9223372036854775808",
        "00123",
        "-0",
        "\u{661}\u{662}\u{663}",
    ];
    for s in cases {
        assert_eq!(parse_i64(s), s.parse::<i64>().ok(), "input: {:?}", s);
    }
}

#[test]
fn exported_item_set_projection() {
    let build = BuildData {
        position: Position::Top,
        rune_page: RunePage {
            runes: vec![1, 2, 3, 4, 5, 6, 7, 8, 9],
            primary_tree: 8100,
            secondary_tree: 8300,
            win_rate: 100_000,
        },
        item_sets: vec![
            ItemSet { name: String::from("Starting Build - 166.67% win rate"), items: vec![1055] },
            ItemSet { name: String::from("Core Build - 166.67% win rate"), items: vec![3006] },
        ],
        skill_order: String::from("Q>W>E"),
        summoner_spells: SummonerSpells { spell1_id: 4, spell2_id: 7 },
    };
    let sets = item_sets_with_skill_order(&build);
    assert_eq!(
        sets[0].name,
        "Starting Build - 166.67% win rate [Skill Order: Q>W>E]"
    );
    assert_eq!(sets[1].name, "Core Build - 166.67% win rate");

    let mut with_suffix = build.clone();
    with_suffix.item_sets = sets;
    let annie = champion(1, "Annie", "Annie");
    let exported = LeagueItemSet::from_build_data(&with_suffix, &annie);
    assert_eq!(exported.title, "[LH] - Annie Top");
    assert_eq!(exported.type_field, "custom");
    assert_eq!(exported.map, "any");
    assert_eq!(exported.mode, "any");
    assert_eq!(exported.sortrank, 9999999999);
    assert_eq!(exported.champion_key, "Annie");
    assert_eq!(exported.blocks.len(), 2);
    assert_eq!(
        exported.blocks[0].type_field,
        "Starting Build - 166.67% win rate [Skill Order: Q>W>E]"
    );
    assert_eq!(exported.blocks[0].items.len(), 1);
    assert_eq!(exported.blocks[0].items[0].id, "1055");
    assert_eq!(exported.blocks[0].items[0].count, 1);
}

#[test]
fn item_and_block_defaults() {
    let item = Item::from(-42);
    assert_eq!(item.id, "-42");
    assert_eq!(item.count, 1);
    let block = Block::from(&ItemSet { name: String::from("x"), items: vec![7] });
    assert_eq!(block.type_field, "x");
    assert_eq!(block.min_summoner_level, -1);
    let d = Block::default();
    assert_eq!(d.items.len(), 0);
    let ls = LeagueItemSet::default();
    assert_eq!(ls.type_field, "custom");
}

#[test]
fn build_file_names_and_ownership() {
    assert_eq!(
        build_file_name("Annie", &Position::Mid, "14_23"),
        "LH_Annie-Mid-14_23.json"
    );
    assert!(is_owned_build_file("LH_Annie-Mid-14_23.json"));
    assert!(!is_owned_build_file("Annie-Mid.json"));
    assert!(!is_owned_build_file("LH_Annie-Mid-14_23.txt"));
    assert!(is_owned_build_file("LH_.json"));
    assert!(!is_owned_build_file("LH.json"));
}
