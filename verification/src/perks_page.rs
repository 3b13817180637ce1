//! The rune page the client is asked to create.

use vstd::prelude::*;

verus! {

/// What a new rune page is created from: its display name, the two tree
/// IDs, and the nine selected rune IDs in canonical order.
#[derive(Debug, Clone)]
pub struct PerksPage {
    pub name: String,
    pub primary_style_id: i64,
    pub sub_style_id: i64,
    pub selected_perk_ids: Vec<i64>,
}

} // verus!
