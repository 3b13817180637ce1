//! Turning raw vendor payloads into build records.
//!
//! The HTTP transport lives outside the library; what arrives here is
//! the response text. Parsing that text into a tree is entrusted to the
//! `json` and `serde_json` crates behind small wrappers; everything the
//! tree is read for is verified.

use vstd::prelude::*;

use crate::build_data::BuildData;
use crate::ddragon_champions::Champion;
use crate::ddragon_runes_reforged::RunesData;
use crate::errors::LeagueHelperError;
use crate::node::Node;
use crate::node::child_of;
use crate::node::entries_of;
use crate::node::key_of;
use crate::node::text_of;
use crate::position::Position;
use crate::rune_page::RunePage;
use crate::ugg_role_data::UggRoleData;
use crate::ugg_role_data::first_spell_of;
use crate::ugg_role_data::item_sets_match;
use crate::ugg_role_data::itemset_played_of;
use crate::ugg_role_data::itemset_won_of;
use crate::ugg_role_data::joined_gt;
use crate::ugg_role_data::ordered_runes_of;
use crate::ugg_role_data::page_score_of;
use crate::ugg_role_data::primary_tree_of;
use crate::ugg_role_data::rune_page_issue;
use crate::ugg_role_data::second_spell_of;
use crate::ugg_role_data::secondary_tree_of;
use crate::ugg_role_data::skill_source_of;
use crate::util::parse_i64;
use crate::util::parse_i64_spec;
use vstd::string::StringExecFns;

verus! {

#[verifier::external_type_specification]
#[verifier::external_body]
pub struct ExJsonValue(json::JsonValue);

#[verifier::external_type_specification]
#[verifier::external_body]
pub struct ExSerdeValue(serde_json::Value);

/// The tree a vendor build payload parses to, when it is valid JSON.
pub uninterp spec fn json_tree_of(s: Seq<char>) -> Option<Node>;

/// The tree the vendor home page's embedded data blob parses to, when
/// it is valid JSON.
pub uninterp spec fn ssr_document_of(s: Seq<char>) -> Option<Node>;

/// The embedded data blob of the vendor home page: what the fixed
/// pattern `window.__SSR_DATA__ = ({...})` captures, if anything.
pub uninterp spec fn ssr_blob_of(s: Seq<char>) -> Option<Seq<char>>;

/// Relies on `json::parse`: the tree is a function of the text alone.
/// `node_of_json` carries the parsed value over into the library's model.
#[verifier::external_body]
fn parse_json_text(s: &str) -> (r: Option<Node>)
    ensures
        r == json_tree_of(s@),
{
    match json::parse(s) {
        Ok(v) => Some(node_of_json(&v)),
        Err(_) => None,
    }
}

/// Relies on `json::JsonValue`'s accessors to carry each parsed value
/// into the library's model, arm by arm; numbers that are not `i64`
/// fall outside the model.
#[verifier::external_body]
fn node_of_json(v: &json::JsonValue) -> Node {
    match v {
        json::JsonValue::Null => Node::Null,
        json::JsonValue::Boolean(b) => Node::Bool(*b),
        json::JsonValue::Short(s) => Node::Text(s.as_str().to_string()),
        json::JsonValue::String(s) => Node::Text(s.clone()),
        json::JsonValue::Number(_) => match v.as_i64() {
            Some(n) => Node::Int(n),
            None => Node::Null,
        },
        json::JsonValue::Array(items) => Node::List(items.iter().map(node_of_json).collect()),
        json::JsonValue::Object(o) => Node::Entries(
            o.iter().map(|(k, x)| (k.to_string(), node_of_json(x))).collect(),
        ),
    }
}

/// Relies on `serde_json::from_str::<Value>`: the tree is a function of
/// the text alone. `node_of_serde` carries the parsed value over into
/// the library's model.
#[verifier::external_body]
fn parse_serde_text(s: &str) -> (r: Option<Node>)
    ensures
        r == ssr_document_of(s@),
{
    match serde_json::from_str::<serde_json::Value>(s) {
        Ok(v) => Some(node_of_serde(&v)),
        Err(_) => None,
    }
}

/// Relies on `serde_json::Value`'s accessors to carry each parsed value
/// into the library's model, arm by arm; numbers that are not `i64`
/// fall outside the model.
#[verifier::external_body]
fn node_of_serde(v: &serde_json::Value) -> Node {
    match v {
        serde_json::Value::Null => Node::Null,
        serde_json::Value::Bool(b) => Node::Bool(*b),
        serde_json::Value::Number(n) => match n.as_i64() {
            Some(i) => Node::Int(i),
            None => Node::Null,
        },
        serde_json::Value::String(s) => Node::Text(s.clone()),
        serde_json::Value::Array(items) => Node::List(items.iter().map(node_of_serde).collect()),
        serde_json::Value::Object(o) => Node::Entries(
            o.iter().map(|(k, x)| (k.clone(), node_of_serde(x))).collect(),
        ),
    }
}

/// Relies on `regex::Regex::captures` with the fixed pattern
/// `window\.__SSR_DATA__ = (\{.*})`: the first capture group depends on
/// the input text alone.
#[verifier::external_body]
fn capture_ssr_blob(s: &str) -> (r: Option<String>)
    ensures
        r matches Some(t) ==> ssr_blob_of(s@) == Some(t@),
        r is None ==> ssr_blob_of(s@) is None,
{
    let re = regex::Regex::new(r#"window\.__SSR_DATA__ = (\{.*})"#).ok()?;
    Some(re.captures(s)?.get(1)?.as_str().to_owned())
}

/// The index of the first `.` in `s` at or after `from`, or -1.
pub open spec fn first_dot(s: Seq<char>, from: int) -> int
    decreases s.len() - from,
{
    if from < 0 || from >= s.len() {
        -1
    } else if s[from] == '.' {
        from
    } else {
        first_dot(s, from + 1)
    }
}

/// The patch version a version string yields: its first two
/// `.`-separated pieces joined with `_`, mirroring what taking the
/// first two `split_terminator('.')` items gives. `None` when there is
/// no second piece.
pub open spec fn patch_version_of(s: Seq<char>) -> Option<Seq<char>> {
    let d1 = first_dot(s, 0);
    if d1 < 0 {
        None
    } else {
        let d2 = first_dot(s, d1 + 1);
        let minor_end: int = if d2 < 0 {
            s.len() as int
        } else {
            d2
        };
        let minor = s.subrange(d1 + 1, minor_end);
        if d2 < 0 && minor.len() == 0 {
            None
        } else {
            Some(s.subrange(0, d1) + seq!['_'] + minor)
        }
    }
}

/// Where the current patch version sits in the vendor's embedded data:
/// the first entry of the `data` array under the patch-versions URL key,
/// as a string.
pub open spec fn version_source_of(doc: Node) -> Option<Seq<char>> {
    text_of(
        child_of(
            key_of(
                key_of(
                    doc,
                    "https://static.bigbrain.gg/assets/lol/riot_patch_update/prod/versions.json"@,
                ),
                "data"@,
            ),
            0,
        ),
    )
}

/// The patch version the vendor home page yields, through the capture,
/// the parse, and the version string, when each step succeeds.
pub open spec fn extracted_version_of(home_page: Seq<char>) -> Option<Seq<char>> {
    match ssr_blob_of(home_page) {
        None => None,
        Some(blob) => match ssr_document_of(blob) {
            None => None,
            Some(doc) => match version_source_of(doc) {
                None => None,
                Some(t) => patch_version_of(t),
            },
        },
    }
}

/// `first_dot` is what its name says.
proof fn lemma_first_dot_props(s: Seq<char>, from: int)
    requires
        0 <= from <= s.len(),
    ensures
        first_dot(s, from) >= 0 ==> {
            &&& from <= first_dot(s, from) < s.len()
            &&& s[first_dot(s, from)] == '.'
            &&& forall|j: int| from <= j < first_dot(s, from) ==> s[j] != '.'
        },
        first_dot(s, from) < 0 ==> forall|j: int| from <= j < s.len() ==> s[j] != '.',
    decreases s.len() - from,
{
    if from < s.len() && s[from] != '.' {
        lemma_first_dot_props(s, from + 1);
    }
}

/// The index of the first `.` in `s` at or after `from`, if any.
fn find_dot(s: &str, from: usize) -> (r: Option<usize>)
    requires
        from <= s@.len(),
    ensures
        r matches Some(d) ==> d as int == first_dot(s@, from as int),
        r is None ==> first_dot(s@, from as int) < 0,
{
    let len = s.unicode_len();
    let mut i: usize = from;
    while i < len
        invariant
            from <= i <= len,
            len == s@.len(),
            forall|j: int| from <= j < i ==> s@[j] != '.',
        decreases len - i,
    {
        if s.get_char(i) as u32 == 46 {
            proof {
                assert(s@[i as int] == '.');
                lemma_first_dot_props(s@, from as int);
            }
            return Some(i);
        }
        proof {
            assert(s@[i as int] != '.');
        }
        i = i + 1;
    }
    proof {
        lemma_first_dot_props(s@, from as int);
    }
    None
}

/// Appends `s@.subrange(lo, hi)` to `out`, character by character.
fn append_subrange(out: &mut String, s: &str, lo: usize, hi: usize)
    requires
        lo <= hi <= s@.len(),
    ensures
        final(out)@ == old(out)@ + s@.subrange(lo as int, hi as int),
{
    let mut i: usize = lo;
    proof {
        assert(old(out)@ + s@.subrange(lo as int, lo as int) =~= old(out)@);
    }
    while i < hi
        invariant
            lo <= i <= hi <= s@.len(),
            out@ == old(out)@ + s@.subrange(lo as int, i as int),
        decreases hi - i,
    {
        crate::util::push_char(out, s.get_char(i));
        proof {
            assert(old(out)@ + s@.subrange(lo as int, i as int + 1) =~= (old(out)@
                + s@.subrange(lo as int, i as int)).push(s@[i as int]));
        }
        i = i + 1;
    }
}

/// Discovers the vendor's current patch version from its home-page
/// text: captures the embedded data blob, parses it, reads the first
/// entry of the patch-version list, and keeps the major and minor
/// pieces joined with an underscore.
pub fn extract_patch_version(home_page: &str) -> (r: Result<String, LeagueHelperError>)
    ensures
        r matches Ok(v) ==> extracted_version_of(home_page@) == Some(v@),
        r is Err <==> extracted_version_of(home_page@) is None,
        r is Err ==> r == Err::<String, _>(LeagueHelperError::VersionUnavailable),
{
    let blob = match capture_ssr_blob(home_page) {
        Some(b) => b,
        None => {
            return Err(LeagueHelperError::VersionUnavailable);
        },
    };
    let doc = match parse_serde_text(blob.as_str()) {
        Some(d) => d,
        None => {
            return Err(LeagueHelperError::VersionUnavailable);
        },
    };
    let source = match doc.entry(
        "https://static.bigbrain.gg/assets/lol/riot_patch_update/prod/versions.json",
    ) {
        Some(n) => match n.entry("data") {
            Some(d) => match d.child(0) {
                Some(first) => first.as_text(),
                None => None,
            },
            None => None,
        },
        None => None,
    };
    let source = match source {
        Some(t) => t,
        None => {
            return Err(LeagueHelperError::VersionUnavailable);
        },
    };
    let d1 = match find_dot(source, 0) {
        Some(d) => d,
        None => {
            return Err(LeagueHelperError::VersionUnavailable);
        },
    };
    let len = source.unicode_len();
    proof {
        lemma_first_dot_props(source@, 0);
    }
    let minor_end = match find_dot(source, d1 + 1) {
        Some(d) => {
            proof {
                lemma_first_dot_props(source@, d1 as int + 1);
            }
            d
        },
        None => {
            if d1 + 1 == len {
                return Err(LeagueHelperError::VersionUnavailable);
            }
            len
        },
    };
    let mut out = String::new();
    append_subrange(&mut out, source, 0, d1);
    crate::util::push_char(&mut out, '_');
    append_subrange(&mut out, source, d1 + 1, minor_end);
    proof {
        assert(out@ =~= source@.subrange(0, d1 as int) + seq!['_'] + source@.subrange(
            d1 as int + 1,
            minor_end as int,
        ));
    }
    Ok(out)
}

/// Whether every reader of a role node succeeds, so that a build record
/// can be assembled from it.
pub open spec fn role_ok(v: Node, rd: RunesData) -> bool {
    &&& rune_page_issue(v, rd) is None
    &&& itemset_won_of(v, 2) is Some
    &&& itemset_played_of(v, 2) is Some
    &&& itemset_won_of(v, 3) is Some
    &&& itemset_played_of(v, 3) is Some
    &&& skill_source_of(v) is Some
    &&& first_spell_of(v) is Some
    &&& second_spell_of(v) is Some
}

/// What the build record assembled from a role node holds, field by
/// field.
pub open spec fn build_matches(b: BuildData, v: Node, rd: RunesData, key: i64) -> bool {
    &&& b.position == Position::from_index_spec(key as int)
    &&& b.rune_page.primary_tree == primary_tree_of(v)->0
    &&& b.rune_page.secondary_tree == secondary_tree_of(v)->0
    &&& b.rune_page.runes@ == ordered_runes_of(v, rd)
    &&& b.rune_page.runes@.len() == 9
    &&& b.rune_page.win_rate == page_score_of(v)
    &&& item_sets_match(b.item_sets@, v)
    &&& b.skill_order@ == joined_gt(skill_source_of(v)->0)
    &&& b.summoner_spells.spell1_id == first_spell_of(v)->0
    &&& b.summoner_spells.spell2_id == second_spell_of(v)->0
}

/// What one roster entry of the payload normalizes to: a build record
/// when the position key parses and every reader succeeds, an error
/// otherwise.
pub open spec fn entry_result_matches(
    res: Result<BuildData, LeagueHelperError>,
    key: Seq<char>,
    v: Node,
    rd: RunesData,
) -> bool {
    match parse_i64_spec(key) {
        None => res is Err,
        Some(k) => {
            if role_ok(v, rd) {
                res matches Ok(b) && build_matches(b, v, rd, k)
            } else {
                res is Err
            }
        },
    }
}

/// Prefixes a role-level error with the champion and position it
/// belongs to, so that a dropped record still names its scope.
fn format_role_error(champion: &Champion, position: &Position, e: &LeagueHelperError) -> (r:
    LeagueHelperError)
    ensures
        r matches LeagueHelperError::Other(m) && m@ == champion.name@ + " "@
            + position.name_spec() + " - "@ + e.message_spec(),
{
    let mut m = champion.name.clone();
    m.append(" ");
    m.append(position.name());
    m.append(" - ");
    let inner = e.message();
    m.append(inner.as_str());
    LeagueHelperError::Other(m)
}

/// Normalizes one champion's raw payload text into its per-position
/// build records. The payload holds, under the world region and
/// platinum-plus rank keys, one entry per position; each entry
/// normalizes independently, so one bad position never drops the
/// others. An unparsable payload, or one with no entries at all, fails
/// the champion.
pub fn get_champion_data(
    payload: &str,
    champion: &Champion,
    runes_data: &RunesData,
) -> (r: Result<Vec<Result<BuildData, LeagueHelperError>>, LeagueHelperError>)
    ensures
        r is Ok <==> (json_tree_of(payload@) matches Some(root) && entries_of(
            key_of(key_of(root, "12"@), "10"@),
        ).len() > 0),
        json_tree_of(payload@) is None ==> (r matches Err(LeagueHelperError::Other(m)) && m@
            == "Failed to parse build data"@),
        json_tree_of(payload@) matches Some(root) ==> {
            let es = entries_of(key_of(key_of(root, "12"@), "10"@));
            &&& es.len() == 0 ==> (r matches Err(LeagueHelperError::Other(m)) && m@
                == "No build data found."@)
            &&& r matches Ok(list) ==> {
                &&& list@.len() == es.len()
                &&& forall|i: int|
                    0 <= i < es.len() ==> entry_result_matches(
                        #[trigger] list@[i],
                        es[i].0@,
                        es[i].1,
                        *runes_data,
                    )
            }
        },
{
    let root = match parse_json_text(payload) {
        Some(n) => n,
        None => {
            return Err(LeagueHelperError::Other("Failed to parse build data".to_owned()));
        },
    };
    let ghost root_snap = root;

    // The overview is keyed by world region ("12") and platinum-plus
    // rank ("10").
    let data_node = match root.entry("12") {
        Some(world) => world.entry("10"),
        None => None,
    };
    let pairs = match data_node {
        Some(n) => n.as_pairs(),
        None => None,
    };
    let pairs = match pairs {
        Some(p) => p,
        None => {
            return Err(LeagueHelperError::Other("No build data found.".to_owned()));
        },
    };
    if pairs.len() == 0 {
        return Err(LeagueHelperError::Other("No build data found.".to_owned()));
    }

    let mut results: Vec<Result<BuildData, LeagueHelperError>> = Vec::new();
    for e in 0..pairs.len()
        invariant
            json_tree_of(payload@) == Some(root_snap),
            pairs@ == entries_of(key_of(key_of(root_snap, "12"@), "10"@)),
            results@.len() == e,
            forall|i: int|
                0 <= i < e ==> entry_result_matches(
                    #[trigger] results@[i],
                    pairs@[i].0@,
                    pairs@[i].1,
                    *runes_data,
                ),
    {
        let entry = match parse_i64(pairs[e].0.as_str()) {
            None => Err(LeagueHelperError::Other("Failed to read position key".to_owned())),
            Some(key) => {
                let position = Position::from_index(key);
                let role_data = UggRoleData(&pairs[e].1);
                match role_data.get_rune_page(runes_data) {
                    Err(err) => Err(format_role_error(champion, &position, &err)),
                    Ok(rune_page) => match role_data.get_item_set() {
                        Err(err) => Err(format_role_error(champion, &position, &err)),
                        Ok(item_sets) => match role_data.get_skill_order() {
                            Err(err) => Err(format_role_error(champion, &position, &err)),
                            Ok(skill_order) => match role_data.get_summoner_spells() {
                                Err(err) => Err(format_role_error(champion, &position, &err)),
                                Ok(summoner_spells) => Ok(
                                    BuildData {
                                        position,
                                        rune_page,
                                        item_sets,
                                        skill_order,
                                        summoner_spells,
                                    },
                                ),
                            },
                        },
                    },
                }
            },
        };
        results.push(entry);
    }
    Ok(results)
}

} // verus!
