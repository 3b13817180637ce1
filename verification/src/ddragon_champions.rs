//! The official champion reference data.

use vstd::prelude::*;

verus! {

/// The champion roster of one patch version.
#[derive(Debug, Clone)]
pub struct ChampionData {
    pub data_type: String,
    pub format: String,
    pub version: String,
    pub champion_list: Vec<Champion>,
}

/// One champion: a stable numeric key, a textual ID used in file paths,
/// and display metadata. Champions are ordered and compared by `key`.
#[derive(Debug, Clone)]
pub struct Champion {
    pub version: String,
    pub id: String,
    pub key: i64,
    pub name: String,
    pub title: String,
    pub blurb: String,
    pub info: Info,
    pub image: Image,
    pub tags: Vec<String>,
    pub partype: String,
}

/// A champion's difficulty ratings.
#[derive(Debug, Clone, Copy, PartialEq, Eq, Structural)]
pub struct Info {
    pub attack: i64,
    pub defense: i64,
    pub magic: i64,
    pub difficulty: i64,
}

/// A champion's sprite-sheet entry.
#[derive(Debug, Clone)]
pub struct Image {
    pub full: String,
    pub sprite: String,
    pub group: String,
    pub x: i64,
    pub y: i64,
    pub w: i64,
    pub h: i64,
}

} // verus!
