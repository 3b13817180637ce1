//! Normalizing one vendor role node: rune ordering, item sets, skill
//! order, and summoner spells.

use league_helper::ItemSet;
use league_helper::LeagueHelperError;
use league_helper::Node;
use league_helper::Rune;
use league_helper::RuneData;
use league_helper::RunesData;
use league_helper::Slot;
use league_helper::UggRoleData;

fn rune(id: i64) -> Rune {
    Rune {
        id,
        key: String::new(),
        icon: String::new(),
        name: String::new(),
        short_desc: String::new(),
        long_desc: String::new(),
    }
}

fn slot(ids: &[i64]) -> Slot {
    let mut runes = Vec::new();
    for id in ids {
        runes.push(rune(*id));
    }
    Slot { runes }
}

fn tree(id: i64, slots: Vec<Slot>) -> RuneData {
    RuneData {
        id,
        key: String::new(),
        icon: String::new(),
        name: String::new(),
        slots,
    }
}

/// Tree 8100 with four slots, tree 8300 with a keystone and two more.
fn reference() -> RunesData {
    RunesData {
        runes_data: vec![
            tree(
                8100,
                vec![
                    slot(&[8126, 8112]),
                    slot(&[8210]),
                    slot(&[8220]),
                    slot(&[8230]),
                ],
            ),
            tree(8300, vec![slot(&[8400]), slot(&[8139]), slot(&[8500])]),
        ],
    }
}

fn text(s: &str) -> Node {
    Node::Text(String::from(s))
}

/// One full role node: rune stats at [0][0], spells at [0][1][2],
/// labeled sets at [0][2] and [0][3], skill order at [0][4][3], option
/// groups at [0][5], shards at [0][8][2].
fn role_node(picks: Vec<i64>) -> Node {
    let pick_nodes: Vec<Node> = picks.into_iter().map(Node::Int).collect();
    Node::List(vec![Node::List(vec![
        // [0][0]: games played, games won, trees, picks
        Node::List(vec![
            Node::Int(100),
            Node::Int(60),
            Node::Int(8100),
            Node::Int(8300),
            Node::List(pick_nodes),
        ]),
        // [0][1]: spells at [2]
        Node::List(vec![
            Node::Null,
            Node::Null,
            Node::List(vec![Node::Int(4), Node::Int(7)]),
        ]),
        // [0][2]: starting build
        Node::List(vec![
            Node::Int(60),
            Node::Int(100),
            Node::List(vec![Node::Int(1055), Node::Int(2003)]),
        ]),
        // [0][3]: core build
        Node::List(vec![
            Node::Int(30),
            Node::Int(50),
            Node::List(vec![Node::Int(3006), Node::Int(3031)]),
        ]),
        // [0][4]: skill order at [3]
        Node::List(vec![Node::Null, Node::Null, Node::Null, text("QWEQ")]),
        // [0][5]: one option group, items as first elements
        Node::List(vec![Node::List(vec![
            Node::List(vec![Node::Int(3020), Node::Int(12)]),
            Node::List(vec![Node::Int(3089), Node::Int(7)]),
        ])]),
        Node::Null,
        Node::Null,
        // [0][8]: shards at [2]
        Node::List(vec![
            Node::Null,
            Node::Null,
            Node::List(vec![text("5008"), text("5002"), text("5003")]),
        ]),
    ])])
}

#[test]
fn reorders_runes_into_canonical_slot_order() {
    // Vendor order scrambles the picks; the secondary pick for the
    // third slot is present too.
    let node = role_node(vec![8139, 8230, 8126, 8210, 8220, 8500]);
    let role = UggRoleData(&node);
    let page = role.get_rune_page(&reference()).expect("should normalize");
    assert_eq!(
        page.runes,
        vec![8126, 8210, 8220, 8230, 8139, 8500, 5008, 5002, 5003]
    );
    assert_eq!(page.primary_tree, 8100);
    assert_eq!(page.secondary_tree, 8300);
    // The Wilson lower bound for 60 wins of 100 games.
    assert_eq!(page.win_rate, 391_802);
}

#[test]
fn scenario_from_vendor_node_shape() {
    // {0:[[100,60,8100,8300,[8126,8139,...]], ...]}: the ordered page
    // begins with 8126 and holds 8139 before the three shard IDs.
    let node = role_node(vec![8126, 8139, 8210, 8220, 8230, 8500]);
    let role = UggRoleData(&node);
    let page = role.get_rune_page(&reference()).expect("should normalize");
    assert_eq!(page.runes.len(), 9);
    assert_eq!(page.runes[0], 8126);
    let pos_8139 = page.runes.iter().position(|r| *r == 8139).unwrap();
    assert!(pos_8139 < 6);
    assert_eq!(&page.runes[6..], &[5008, 5002, 5003]);
    assert_eq!(page.win_rate, 391_802);
}

#[test]
fn missing_primary_slot_match_is_incomplete() {
    // No pick for the second primary slot (8210).
    let node = role_node(vec![8126, 8220, 8230, 8139, 8500]);
    let role = UggRoleData(&node);
    let err = role.get_rune_page(&reference()).unwrap_err();
    assert_eq!(err, LeagueHelperError::IncompleteRunePage);
}

#[test]
fn wrong_total_count_is_incomplete() {
    // All primary slots match but only one secondary pick and three
    // shards: eight runes in all.
    let node = role_node(vec![8126, 8210, 8220, 8230, 8139]);
    let role = UggRoleData(&node);
    let err = role.get_rune_page(&reference()).unwrap_err();
    assert_eq!(err, LeagueHelperError::IncompleteRunePage);
}

#[test]
fn unknown_tree_is_invalid_reference() {
    let mut reference_missing = reference();
    reference_missing.runes_data.remove(0);
    let node = role_node(vec![8126, 8210, 8220, 8230, 8139, 8500]);
    let role = UggRoleData(&node);
    let err = role.get_rune_page(&reference_missing).unwrap_err();
    match err {
        LeagueHelperError::InvalidReference(m) => {
            assert_eq!(m, "Primary tree rune key was not valid");
        }
        other => panic!("unexpected error: {:?}", other),
    }
}

#[test]
fn missing_tree_field_is_missing_field() {
    let node = Node::List(vec![Node::List(vec![Node::List(vec![
        Node::Int(100),
        Node::Int(60),
    ])])]);
    let role = UggRoleData(&node);
    let err = role.get_rune_page(&reference()).unwrap_err();
    match err {
        LeagueHelperError::MissingField(m) => {
            assert_eq!(m, "Failed to read runes primary tree");
        }
        other => panic!("unexpected error: {:?}", other),
    }
}

fn names_of(sets: &[ItemSet]) -> Vec<&str> {
    sets.iter().map(|s| s.name.as_str()).collect()
}

#[test]
fn item_sets_carry_vendor_win_rate_labels() {
    let node = role_node(vec![8126, 8210, 8220, 8230, 8139, 8500]);
    let role = UggRoleData(&node);
    let sets = role.get_item_set().expect("item sets");
    assert_eq!(sets.len(), 3);
    // The vendor convention divides games played by games won.
    assert_eq!(
        names_of(&sets),
        vec![
            "Starting Build - 166.67% win rate",
            "Core Build - 166.67% win rate",
            "Fourth Item Options (ordered by games played)",
        ]
    );
    assert_eq!(sets[0].items, vec![1055, 2003]);
    assert_eq!(sets[1].items, vec![3006, 3031]);
    assert_eq!(sets[2].items, vec![3020, 3089]);
}

#[test]
fn missing_item_counts_fail_with_the_set_name() {
    let node = Node::List(vec![Node::List(vec![
        Node::List(vec![
            Node::Int(100),
            Node::Int(60),
            Node::Int(8100),
            Node::Int(8300),
        ]),
        Node::Null,
    ])]);
    let role = UggRoleData(&node);
    let err = role.get_item_set().unwrap_err();
    match err {
        LeagueHelperError::MissingField(m) => {
            assert_eq!(m, "Failed to read item set: Starting Build for games_won");
        }
        other => panic!("unexpected error: {:?}", other),
    }
}

#[test]
fn skill_order_joins_characters() {
    let node = role_node(vec![8126, 8210, 8220, 8230, 8139, 8500]);
    let role = UggRoleData(&node);
    assert_eq!(role.get_skill_order().expect("skill order"), "Q>W>E>Q");
}

#[test]
fn missing_skill_order_fails() {
    let node = Node::List(vec![Node::Null]);
    let role = UggRoleData(&node);
    match role.get_skill_order().unwrap_err() {
        LeagueHelperError::MissingField(m) => assert_eq!(m, "Failed to read skill order"),
        other => panic!("unexpected error: {:?}", other),
    }
}

#[test]
fn summoner_spells_read_in_slot_order() {
    let node = role_node(vec![8126, 8210, 8220, 8230, 8139, 8500]);
    let role = UggRoleData(&node);
    let spells = role.get_summoner_spells().expect("spells");
    assert_eq!(spells.spell1_id, 4);
    assert_eq!(spells.spell2_id, 7);
}

#[test]
fn missing_second_spell_fails() {
    let node = Node::List(vec![Node::List(vec![
        Node::Null,
        Node::List(vec![
            Node::Null,
            Node::Null,
            Node::List(vec![Node::Int(4)]),
        ]),
    ])]);
    let role = UggRoleData(&node);
    match role.get_summoner_spells().unwrap_err() {
        LeagueHelperError::MissingField(m) => {
            assert_eq!(m, "Failed to read second summoner spell");
        }
        other => panic!("unexpected error: {:?}", other),
    }
}

#[test]
fn unreadable_shards_count_as_zero() {
    // A shard that is not a number parses to 0, which then fails the
    // nine-rune invariant only if the count is off; here the count
    // stays nine and the zero shows through.
    let mut node = role_node(vec![8139, 8230, 8126, 8210, 8220, 8500]);
    if let Node::List(ref mut outer) = node {
        if let Node::List(ref mut inner) = outer[0] {
            inner[8] = Node::List(vec![
                Node::Null,
                Node::Null,
                Node::List(vec![text("oops"), text("5002"), text("5003")]),
            ]);
        }
    }
    let role = UggRoleData(&node);
    let page = role.get_rune_page(&reference()).expect("should normalize");
    assert_eq!(&page.runes[6..], &[0, 5002, 5003]);
}
