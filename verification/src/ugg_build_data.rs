//! The build catalog: every champion's normalized builds for one patch.
//!
//! The catalog is assembled once per patch version and read-only
//! afterwards. Entries are sorted by champion key and each champion's
//! builds by descending confidence, so that the same vendor data always
//! yields the same catalog, however the concurrent fetches arrive.

use vstd::prelude::*;
use vstd::multiset::Multiset;

use crate::build_data::BuildData;
use crate::ddragon_champions::Champion;
use crate::errors::LeagueHelperError;
use crate::perks_page::PerksPage;
use crate::position::Position;
use crate::summoner_spells::SummonerSpells;
use vstd::string::StringExecFns;

verus! {

/// The normalized build catalog for one patch version.
#[derive(Debug)]
pub struct UggBuildData {
    pub patch_version: String,
    pub builds: Vec<(Champion, Vec<BuildData>)>,
}

/// Catalog entries in ascending champion-key order.
pub open spec fn sorted_by_key(s: Seq<(Champion, Vec<BuildData>)>) -> bool {
    forall|i: int, j: int| 0 <= i <= j < s.len() ==> s[i].0.key <= s[j].0.key
}

/// No two catalog entries share a champion key.
pub open spec fn distinct_keys(s: Seq<(Champion, Vec<BuildData>)>) -> bool {
    forall|i: int, j: int| 0 <= i < j < s.len() ==> s[i].0.key != s[j].0.key
}

/// Builds in descending confidence order.
pub open spec fn sorted_by_confidence(s: Seq<BuildData>) -> bool {
    forall|i: int, j: int|
        0 <= i <= j < s.len() ==> s[i].rune_page.win_rate >= s[j].rune_page.win_rate
}

/// `b` placed into `sorted` before the first build of strictly lower
/// confidence, after any of equal confidence.
pub open spec fn insert_build_spec(sorted: Seq<BuildData>, b: BuildData) -> Seq<BuildData>
    decreases sorted.len(),
{
    if sorted.len() == 0 {
        seq![b]
    } else if b.rune_page.win_rate > sorted[0].rune_page.win_rate {
        seq![b] + sorted
    } else {
        seq![sorted[0]] + insert_build_spec(sorted.drop_first(), b)
    }
}

/// Stable insertion sort of builds by descending confidence.
pub open spec fn sort_builds_spec(s: Seq<BuildData>) -> Seq<BuildData>
    decreases s.len(),
{
    if s.len() == 0 {
        Seq::empty()
    } else {
        insert_build_spec(sort_builds_spec(s.drop_last()), s.last())
    }
}

/// `e` placed into `sorted` before the first entry of strictly greater
/// key, after any of equal key.
pub open spec fn insert_entry_spec(
    sorted: Seq<(Champion, Vec<BuildData>)>,
    e: (Champion, Vec<BuildData>),
) -> Seq<(Champion, Vec<BuildData>)>
    decreases sorted.len(),
{
    if sorted.len() == 0 {
        seq![e]
    } else if e.0.key < sorted[0].0.key {
        seq![e] + sorted
    } else {
        seq![sorted[0]] + insert_entry_spec(sorted.drop_first(), e)
    }
}

/// Stable insertion sort of catalog entries by ascending champion key.
pub open spec fn sort_catalog_spec(s: Seq<(Champion, Vec<BuildData>)>) -> Seq<
    (Champion, Vec<BuildData>),
>
    decreases s.len(),
{
    if s.len() == 0 {
        Seq::empty()
    } else {
        insert_entry_spec(sort_catalog_spec(s.drop_last()), s.last())
    }
}

/// The builds that survived normalization, in arrival order.
pub open spec fn oks_of(rs: Seq<Result<BuildData, LeagueHelperError>>) -> Seq<BuildData>
    decreases rs.len(),
{
    if rs.len() == 0 {
        Seq::empty()
    } else {
        oks_of(rs.drop_last()) + (match rs.last() {
            Ok(b) => seq![b],
            Err(_) => Seq::empty(),
        })
    }
}

/// The first catalog entry for a champion key, if any.
pub open spec fn find_champion_spec(s: Seq<(Champion, Vec<BuildData>)>, key: i64) -> Option<
    (Champion, Vec<BuildData>),
>
    decreases s.len(),
{
    if s.len() == 0 {
        None
    } else if s[0].0.key == key {
        Some(s[0])
    } else {
        find_champion_spec(s.drop_first(), key)
    }
}

/// The first build for a position, if any.
pub open spec fn find_build_spec(s: Seq<BuildData>, position: Position) -> Option<BuildData>
    decreases s.len(),
{
    if s.len() == 0 {
        None
    } else if s[0].position == position {
        Some(s[0])
    } else {
        find_build_spec(s.drop_first(), position)
    }
}

/// What one catalog entry holds for one fetched champion: the champion
/// itself, and its surviving builds sorted by descending confidence.
pub open spec fn entry_matches(
    e: (Champion, Vec<BuildData>),
    champion: Champion,
    results: Seq<Result<BuildData, LeagueHelperError>>,
) -> bool {
    e.0 == champion && e.1@ == sort_builds_spec(oks_of(results))
}

/// Inserting keeps every build and adds the new one.
proof fn lemma_insert_build_multiset(sorted: Seq<BuildData>, b: BuildData)
    ensures
        insert_build_spec(sorted, b).to_multiset() =~= sorted.to_multiset().insert(b),
        insert_build_spec(sorted, b).len() == sorted.len() + 1,
    decreases sorted.len(),
{
    broadcast use vstd::seq_lib::group_to_multiset_ensures;

    if sorted.len() == 0 {
        assert(insert_build_spec(sorted, b) =~= Seq::empty().push(b));
        assert(sorted.to_multiset() =~= Multiset::empty());
    } else if b.rune_page.win_rate > sorted[0].rune_page.win_rate {
        assert(seq![b] + sorted =~= sorted.insert(0, b));
        vstd::seq_lib::lemma_multiset_commutative(seq![b], sorted);
        assert(seq![b].to_multiset() =~= Multiset::empty().insert(b));
    } else {
        lemma_insert_build_multiset(sorted.drop_first(), b);
        let tail = insert_build_spec(sorted.drop_first(), b);
        vstd::seq_lib::lemma_multiset_commutative(seq![sorted[0]], tail);
        assert(seq![sorted[0]] + tail =~= tail.insert(0, sorted[0]));
        assert(sorted =~= seq![sorted[0]] + sorted.drop_first());
        vstd::seq_lib::lemma_multiset_commutative(seq![sorted[0]], sorted.drop_first());
    }
}

/// Insertion into a descending list keeps it descending.
proof fn lemma_insert_build_sorted(sorted: Seq<BuildData>, b: BuildData)
    requires
        sorted_by_confidence(sorted),
    ensures
        sorted_by_confidence(insert_build_spec(sorted, b)),
    decreases sorted.len(),
{
    broadcast use vstd::seq_lib::group_to_multiset_ensures;

    if sorted.len() == 0 {
    } else if b.rune_page.win_rate > sorted[0].rune_page.win_rate {
        let out = seq![b] + sorted;
        assert forall|i: int, j: int| 0 <= i <= j < out.len() implies out[i].rune_page.win_rate
            >= out[j].rune_page.win_rate by {
            if i > 0 {
                assert(out[i] == sorted[i - 1]);
                assert(out[j] == sorted[j - 1]);
            } else if j > 0 {
                assert(out[j] == sorted[j - 1]);
                assert(sorted[0].rune_page.win_rate >= sorted[j - 1].rune_page.win_rate);
            }
        }
    } else {
        let rest = sorted.drop_first();
        assert(forall|i: int| 0 <= i < rest.len() ==> rest[i] == sorted[i + 1]);
        lemma_insert_build_sorted(rest, b);
        let tail = insert_build_spec(rest, b);
        let out = seq![sorted[0]] + tail;
        lemma_insert_build_multiset(rest, b);
        assert forall|i: int, j: int| 0 <= i <= j < out.len() implies out[i].rune_page.win_rate
            >= out[j].rune_page.win_rate by {
            if i > 0 {
                assert(out[i] == tail[i - 1]);
                assert(out[j] == tail[j - 1]);
            } else if j > 0 {
                assert(out[j] == tail[j - 1]);
                // The head dominates everything inserted behind it.
                assert(tail.to_multiset().contains(tail[j - 1]));
                assert(tail.contains(tail[j - 1]));
                if tail[j - 1] == b {
                    assert(sorted[0].rune_page.win_rate >= b.rune_page.win_rate);
                } else {
                    assert(rest.to_multiset().contains(tail[j - 1]) || tail[j - 1] == b) by {
                        assert(tail.to_multiset() =~= rest.to_multiset().insert(b));
                    }
                    assert(rest.contains(tail[j - 1]));
                    let k = choose|k: int| 0 <= k < rest.len() && rest[k] == tail[j - 1];
                    assert(sorted[0].rune_page.win_rate >= sorted[k + 1].rune_page.win_rate);
                }
            }
        }
    }
}

/// Sorting the builds keeps them all and orders them by descending
/// confidence.
pub proof fn lemma_sort_builds_props(s: Seq<BuildData>)
    ensures
        sort_builds_spec(s).to_multiset() =~= s.to_multiset(),
        sort_builds_spec(s).len() == s.len(),
        sorted_by_confidence(sort_builds_spec(s)),
    decreases s.len(),
{
    broadcast use vstd::seq_lib::group_to_multiset_ensures;

    if s.len() == 0 {
        assert(s.to_multiset() =~= Multiset::empty());
    } else {
        lemma_sort_builds_props(s.drop_last());
        lemma_insert_build_multiset(sort_builds_spec(s.drop_last()), s.last());
        lemma_insert_build_sorted(sort_builds_spec(s.drop_last()), s.last());
        assert(s =~= s.drop_last().push(s.last()));
        assert(s.drop_last().push(s.last()).to_multiset() =~= s.drop_last().to_multiset().insert(
            s.last(),
        ));
    }
}

/// Inserting keeps every entry and adds the new one.
proof fn lemma_insert_entry_multiset(sorted: Seq<(Champion, Vec<BuildData>)>, e: (Champion, Vec<BuildData>))
    ensures
        insert_entry_spec(sorted, e).to_multiset() =~= sorted.to_multiset().insert(e),
        insert_entry_spec(sorted, e).len() == sorted.len() + 1,
    decreases sorted.len(),
{
    broadcast use vstd::seq_lib::group_to_multiset_ensures;

    if sorted.len() == 0 {
        assert(insert_entry_spec(sorted, e) =~= Seq::empty().push(e));
        assert(sorted.to_multiset() =~= Multiset::empty());
    } else if e.0.key < sorted[0].0.key {
        assert(seq![e] + sorted =~= sorted.insert(0, e));
        vstd::seq_lib::lemma_multiset_commutative(seq![e], sorted);
        assert(seq![e].to_multiset() =~= Multiset::empty().insert(e));
    } else {
        lemma_insert_entry_multiset(sorted.drop_first(), e);
        let tail = insert_entry_spec(sorted.drop_first(), e);
        vstd::seq_lib::lemma_multiset_commutative(seq![sorted[0]], tail);
        assert(seq![sorted[0]] + tail =~= tail.insert(0, sorted[0]));
        assert(sorted =~= seq![sorted[0]] + sorted.drop_first());
        vstd::seq_lib::lemma_multiset_commutative(seq![sorted[0]], sorted.drop_first());
    }
}

/// Insertion into an ascending list keeps it ascending.
proof fn lemma_insert_entry_sorted(sorted: Seq<(Champion, Vec<BuildData>)>, e: (Champion, Vec<BuildData>))
    requires
        sorted_by_key(sorted),
    ensures
        sorted_by_key(insert_entry_spec(sorted, e)),
    decreases sorted.len(),
{
    broadcast use vstd::seq_lib::group_to_multiset_ensures;

    if sorted.len() == 0 {
    } else if e.0.key < sorted[0].0.key {
        let out = seq![e] + sorted;
        assert forall|i: int, j: int| 0 <= i <= j < out.len() implies out[i].0.key
            <= out[j].0.key by {
            if i > 0 {
                assert(out[i] == sorted[i - 1]);
                assert(out[j] == sorted[j - 1]);
            } else if j > 0 {
                assert(out[j] == sorted[j - 1]);
                assert(sorted[0].0.key <= sorted[j - 1].0.key);
            }
        }
    } else {
        let rest = sorted.drop_first();
        assert(forall|i: int| 0 <= i < rest.len() ==> rest[i] == sorted[i + 1]);
        lemma_insert_entry_sorted(rest, e);
        let tail = insert_entry_spec(rest, e);
        let out = seq![sorted[0]] + tail;
        lemma_insert_entry_multiset(rest, e);
        assert forall|i: int, j: int| 0 <= i <= j < out.len() implies out[i].0.key
            <= out[j].0.key by {
            if i > 0 {
                assert(out[i] == tail[i - 1]);
                assert(out[j] == tail[j - 1]);
            } else if j > 0 {
                assert(out[j] == tail[j - 1]);
                assert(tail.to_multiset().contains(tail[j - 1]));
                assert(tail.contains(tail[j - 1]));
                if tail[j - 1] == e {
                    assert(sorted[0].0.key <= e.0.key);
                } else {
                    assert(rest.to_multiset().contains(tail[j - 1]) || tail[j - 1] == e) by {
                        assert(tail.to_multiset() =~= rest.to_multiset().insert(e));
                    }
                    assert(rest.contains(tail[j - 1]));
                    let k = choose|k: int| 0 <= k < rest.len() && rest[k] == tail[j - 1];
                    assert(sorted[0].0.key <= sorted[k + 1].0.key);
                }
            }
        }
    }
}

/// Sorting the catalog keeps every entry and orders them by ascending
/// champion key.
pub proof fn lemma_sort_catalog_props(s: Seq<(Champion, Vec<BuildData>)>)
    ensures
        sort_catalog_spec(s).to_multiset() =~= s.to_multiset(),
        sort_catalog_spec(s).len() == s.len(),
        sorted_by_key(sort_catalog_spec(s)),
    decreases s.len(),
{
    broadcast use vstd::seq_lib::group_to_multiset_ensures;

    if s.len() == 0 {
        assert(s.to_multiset() =~= Multiset::empty());
    } else {
        lemma_sort_catalog_props(s.drop_last());
        lemma_insert_entry_multiset(sort_catalog_spec(s.drop_last()), s.last());
        lemma_insert_entry_sorted(sort_catalog_spec(s.drop_last()), s.last());
        assert(s =~= s.drop_last().push(s.last()));
        assert(s.drop_last().push(s.last()).to_multiset() =~= s.drop_last().to_multiset().insert(
            s.last(),
        ));
    }
}

/// Catalog assembly is deterministic: two catalogs holding the same
/// entries — however the bounded-concurrency fetches happened to
/// arrive — and sorted by champion key are the same catalog, entry for
/// entry, as long as no champion key repeats.
pub proof fn lemma_catalog_determinism(
    a: Seq<(Champion, Vec<BuildData>)>,
    b: Seq<(Champion, Vec<BuildData>)>,
)
    requires
        a.to_multiset() == b.to_multiset(),
        sorted_by_key(a),
        sorted_by_key(b),
        distinct_keys(a),
    ensures
        a == b,
    decreases a.len(),
{
    broadcast use vstd::seq_lib::group_to_multiset_ensures;

    if a.len() == 0 {
        assert(b.len() == b.to_multiset().len());
        assert(b.len() == 0);
        assert(a =~= b);
    } else {
        assert(a.len() == a.to_multiset().len());
        assert(b.len() == b.to_multiset().len());
        assert(b.len() == a.len());
        assert(a.to_multiset().contains(a[0])) by {
            assert(a.contains(a[0]));
        }
        assert(b.contains(a[0]));
        let j = choose|j: int| 0 <= j < b.len() && b[j] == a[0];
        assert(b.to_multiset().contains(b[0])) by {
            assert(b.contains(b[0]));
        }
        assert(a.contains(b[0]));
        let i = choose|i: int| 0 <= i < a.len() && a[i] == b[0];
        // The two heads carry the same (minimal) key, so by key
        // distinctness they are the same entry.
        assert(b[0].0.key <= b[j].0.key);
        assert(a[0].0.key <= a[i].0.key);
        assert(a[0].0.key == b[0].0.key);
        if i != 0 {
            assert(a[0].0.key != a[i].0.key);
            assert(false);
        }
        assert(b[0] == a[0]);
        let at = a.drop_first();
        let bt = b.drop_first();
        assert(at =~= a.remove(0));
        assert(bt =~= b.remove(0));
        assert(at.to_multiset() =~= a.to_multiset().remove(a[0]));
        assert(bt.to_multiset() =~= b.to_multiset().remove(b[0]));
        assert(forall|k: int| 0 <= k < at.len() ==> at[k] == a[k + 1]);
        assert(forall|k: int| 0 <= k < bt.len() ==> bt[k] == b[k + 1]);
        lemma_catalog_determinism(at, bt);
        assert forall|m: int| 0 <= m < a.len() implies a[m] == b[m] by {
            if m > 0 {
                assert(a[m] == at[m - 1]);
                assert(b[m] == bt[m - 1]);
                assert(at[m - 1] == bt[m - 1]);
            }
        }
        assert(a =~= b);
    }
}

/// Moves the surviving builds out of one champion's per-position
/// results, in order.
fn collect_ok_builds(results: Vec<Result<BuildData, LeagueHelperError>>) -> (r: Vec<BuildData>)
    ensures
        r@ == oks_of(results@),
{
    let mut rest = results;
    let mut out: Vec<BuildData> = Vec::new();
    let ghost all = rest@;
    let ghost done: Seq<Result<BuildData, LeagueHelperError>> = Seq::empty();
    proof {
        assert(oks_of(done) =~= Seq::<BuildData>::empty());
        assert(done + rest@ =~= all);
    }
    while rest.len() > 0
        invariant
            out@ == oks_of(done),
            done + rest@ == all,
        decreases rest.len(),
    {
        let ghost done_pre = done;
        let ghost rest_pre = rest@;
        let head = rest.remove(0);
        proof {
            done = done.push(head);
            assert(rest_pre[0] == head);
            assert(done.drop_last() =~= done_pre);
            assert(done.last() == head);
        }
        match head {
            Ok(b) => {
                out.push(b);
                proof {
                    assert(oks_of(done) =~= oks_of(done_pre).push(b));
                }
            },
            Err(_) => {
                proof {
                    assert(oks_of(done) =~= oks_of(done_pre));
                }
            },
        }
        proof {
            assert(rest@ =~= rest_pre.remove(0));
            assert(done + rest@ =~= all);
        }
    }
    proof {
        assert(done =~= all);
    }
    out
}

/// Sorts one champion's builds by descending confidence, stably.
pub fn sorted_builds(builds: Vec<BuildData>) -> (r: Vec<BuildData>)
    ensures
        r@ == sort_builds_spec(builds@),
{
    let mut rest = builds;
    let mut out: Vec<BuildData> = Vec::new();
    let ghost all = rest@;
    let ghost done: Seq<BuildData> = Seq::empty();
    proof {
        assert(sort_builds_spec(done) =~= Seq::<BuildData>::empty());
        assert(done + rest@ =~= all);
    }
    while rest.len() > 0
        invariant
            out@ == sort_builds_spec(done),
            done + rest@ == all,
        decreases rest.len(),
    {
        let ghost done_pre = done;
        let ghost rest_pre = rest@;
        let b = rest.remove(0);
        proof {
            done = done.push(b);
            assert(done.drop_last() =~= done_pre);
        }
        let ghost sorted_pre = out@;
        let mut idx: usize = 0;
        while idx < out.len() && out[idx].rune_page.win_rate >= b.rune_page.win_rate
            invariant
                idx <= out@.len(),
                out@ == sorted_pre,
                forall|k: int| 0 <= k < idx ==> out@[k].rune_page.win_rate >= b.rune_page.win_rate,
            decreases out@.len() - idx,
        {
            idx = idx + 1;
        }
        proof {
            lemma_insert_build_at(out@, b, idx as int);
        }
        out.insert(idx, b);
        proof {
            assert(out@ =~= sorted_pre.insert(idx as int, b));
            assert(sorted_pre.insert(idx as int, b) =~= sorted_pre.subrange(0, idx as int)
                + seq![b] + sorted_pre.subrange(idx as int, sorted_pre.len() as int));
            assert(out@ =~= insert_build_spec(sorted_pre, b));
            assert(rest@ =~= rest_pre.remove(0));
            assert(done + rest@ =~= all);
        }
    }
    proof {
        assert(done =~= all);
    }
    out
}

/// Direct insertion at the first lower-confidence position is what the
/// recursive insertion does.
proof fn lemma_insert_build_at(sorted: Seq<BuildData>, b: BuildData, idx: int)
    requires
        0 <= idx <= sorted.len(),
        forall|k: int| 0 <= k < idx ==> sorted[k].rune_page.win_rate >= b.rune_page.win_rate,
        idx < sorted.len() ==> sorted[idx].rune_page.win_rate < b.rune_page.win_rate,
    ensures
        insert_build_spec(sorted, b) == sorted.subrange(0, idx) + seq![b] + sorted.subrange(
            idx,
            sorted.len() as int,
        ),
    decreases sorted.len(),
{
    if sorted.len() == 0 {
        assert(insert_build_spec(sorted, b) =~= sorted.subrange(0, 0) + seq![b] + sorted.subrange(
            0,
            0,
        ));
    } else if idx == 0 {
        assert(b.rune_page.win_rate > sorted[0].rune_page.win_rate);
        assert(sorted.subrange(0, 0) + seq![b] + sorted.subrange(0, sorted.len() as int)
            =~= seq![b] + sorted);
    } else {
        let rest = sorted.drop_first();
        assert(forall|k: int| 0 <= k < rest.len() ==> rest[k] == sorted[k + 1]);
        lemma_insert_build_at(rest, b, idx - 1);
        assert(insert_build_spec(sorted, b) == seq![sorted[0]] + insert_build_spec(rest, b));
        assert(seq![sorted[0]] + (rest.subrange(0, idx - 1) + seq![b] + rest.subrange(
            idx - 1,
            rest.len() as int,
        )) =~= sorted.subrange(0, idx) + seq![b] + sorted.subrange(idx, sorted.len() as int));
    }
}

/// Direct insertion at the first greater-key position is what the
/// recursive insertion does.
proof fn lemma_insert_entry_at(
    sorted: Seq<(Champion, Vec<BuildData>)>,
    e: (Champion, Vec<BuildData>),
    idx: int,
)
    requires
        0 <= idx <= sorted.len(),
        forall|k: int| 0 <= k < idx ==> sorted[k].0.key <= e.0.key,
        idx < sorted.len() ==> sorted[idx].0.key > e.0.key,
    ensures
        insert_entry_spec(sorted, e) == sorted.subrange(0, idx) + seq![e] + sorted.subrange(
            idx,
            sorted.len() as int,
        ),
    decreases sorted.len(),
{
    if sorted.len() == 0 {
        assert(insert_entry_spec(sorted, e) =~= sorted.subrange(0, 0) + seq![e] + sorted.subrange(
            0,
            0,
        ));
    } else if idx == 0 {
        assert(e.0.key < sorted[0].0.key);
        assert(sorted.subrange(0, 0) + seq![e] + sorted.subrange(0, sorted.len() as int) =~= seq![e]
            + sorted);
    } else {
        let rest = sorted.drop_first();
        assert(forall|k: int| 0 <= k < rest.len() ==> rest[k] == sorted[k + 1]);
        lemma_insert_entry_at(rest, e, idx - 1);
        assert(insert_entry_spec(sorted, e) == seq![sorted[0]] + insert_entry_spec(rest, e));
        assert(seq![sorted[0]] + (rest.subrange(0, idx - 1) + seq![e] + rest.subrange(
            idx - 1,
            rest.len() as int,
        )) =~= sorted.subrange(0, idx) + seq![e] + sorted.subrange(idx, sorted.len() as int));
    }
}

/// Sorts catalog entries by ascending champion key, stably.
pub fn sorted_catalog(entries: Vec<(Champion, Vec<BuildData>)>) -> (r: Vec<
    (Champion, Vec<BuildData>),
>)
    ensures
        r@ == sort_catalog_spec(entries@),
{
    let mut rest = entries;
    let mut out: Vec<(Champion, Vec<BuildData>)> = Vec::new();
    let ghost all = rest@;
    let ghost done: Seq<(Champion, Vec<BuildData>)> = Seq::empty();
    proof {
        assert(sort_catalog_spec(done) =~= Seq::<(Champion, Vec<BuildData>)>::empty());
        assert(done + rest@ =~= all);
    }
    while rest.len() > 0
        invariant
            out@ == sort_catalog_spec(done),
            done + rest@ == all,
        decreases rest.len(),
    {
        let ghost done_pre = done;
        let ghost rest_pre = rest@;
        let e = rest.remove(0);
        proof {
            done = done.push(e);
            assert(done.drop_last() =~= done_pre);
        }
        let ghost sorted_pre = out@;
        let mut idx: usize = 0;
        while idx < out.len() && out[idx].0.key <= e.0.key
            invariant
                idx <= out@.len(),
                out@ == sorted_pre,
                forall|k: int| 0 <= k < idx ==> out@[k].0.key <= e.0.key,
            decreases out@.len() - idx,
        {
            idx = idx + 1;
        }
        proof {
            lemma_insert_entry_at(out@, e, idx as int);
        }
        out.insert(idx, e);
        proof {
            assert(out@ =~= sorted_pre.insert(idx as int, e));
            assert(sorted_pre.insert(idx as int, e) =~= sorted_pre.subrange(0, idx as int)
                + seq![e] + sorted_pre.subrange(idx as int, sorted_pre.len() as int));
            assert(out@ =~= insert_entry_spec(sorted_pre, e));
            assert(rest@ =~= rest_pre.remove(0));
            assert(done + rest@ =~= all);
        }
    }
    proof {
        assert(done =~= all);
    }
    out
}

impl UggBuildData {
    /// Appends one champion's entry: its surviving builds, sorted by
    /// descending confidence. A champion whose every position failed
    /// normalization still gets an entry, with an empty build list —
    /// never silently omitted.
    pub fn push_champion_builds(
        builds: &mut Vec<(Champion, Vec<BuildData>)>,
        champion: Champion,
        role_results: Vec<Result<BuildData, LeagueHelperError>>,
    )
        ensures
            final(builds)@.len() == old(builds)@.len() + 1,
            final(builds)@.subrange(0, old(builds)@.len() as int) == old(builds)@,
            entry_matches(final(builds)@.last(), champion, role_results@),
    {
        let oks = collect_ok_builds(role_results);
        let sorted = sorted_builds(oks);
        builds.push((champion, sorted));
        proof {
            assert(builds@.subrange(0, old(builds)@.len() as int) =~= old(builds)@);
        }
    }

    /// Assembles the catalog for one patch from the per-champion fetch
    /// outcomes: a champion whose fetch failed is dropped entirely,
    /// every other champion contributes exactly one entry, and the
    /// entries are sorted by champion key for deterministic content.
    pub fn assemble(
        patch_version: String,
        fetched: Vec<(Champion, Result<Vec<Result<BuildData, LeagueHelperError>>, LeagueHelperError>)>,
    ) -> (r: UggBuildData)
        ensures
            r.patch_version == patch_version,
            sorted_by_key(r.builds@),
            r.builds@.len() == kept_count(fetched@),
            forall|i: int|
                0 <= i < r.builds@.len() ==> exists|k: int|
                    0 <= k < fetched@.len() && fetched@[k].1 is Ok && entry_matches(
                        #[trigger] r.builds@[i],
                        fetched@[k].0,
                        fetched@[k].1->Ok_0@,
                    ),
    {
        let mut rest = fetched;
        let mut entries: Vec<(Champion, Vec<BuildData>)> = Vec::new();
        let ghost all = rest@;
        let ghost done: Seq<
            (Champion, Result<Vec<Result<BuildData, LeagueHelperError>>, LeagueHelperError>),
        > = Seq::empty();
        proof {
            assert(kept_count(done) == 0);
            assert(done + rest@ =~= all);
        }
        while rest.len() > 0
            invariant
                done + rest@ == all,
                entries@.len() == kept_count(done),
                forall|i: int|
                    0 <= i < entries@.len() ==> exists|k: int|
                        0 <= k < done.len() && done[k].1 is Ok && entry_matches(
                            #[trigger] entries@[i],
                            done[k].0,
                            done[k].1->Ok_0@,
                        ),
            decreases rest.len(),
        {
            let ghost done_pre = done;
            let ghost rest_pre = rest@;
            let ghost entries_pre = entries@;
            let (champion, outcome) = rest.remove(0);
            proof {
                done = done.push((champion, outcome));
                assert(done.drop_last() =~= done_pre);
                assert(forall|k: int| 0 <= k < done_pre.len() ==> done[k] == done_pre[k]);
            }
            match outcome {
                Ok(role_results) => {
                    UggBuildData::push_champion_builds(&mut entries, champion, role_results);
                    proof {
                        assert(entries@.last() == entries@[entries@.len() - 1]);
                        assert(forall|i: int|
                            0 <= i < entries_pre.len() ==> entries@[i] == entries_pre[i]);
                        assert(done.last().1 is Ok && done.last().1->Ok_0 == role_results);
                    }
                },
                Err(_) => {},
            }
            proof {
                assert forall|i: int| 0 <= i < entries@.len() implies exists|k: int|
                    0 <= k < done.len() && done[k].1 is Ok && entry_matches(
                        #[trigger] entries@[i],
                        done[k].0,
                        done[k].1->Ok_0@,
                    ) by {
                    if i < entries_pre.len() {
                        let k0 = choose|k0: int|
                            0 <= k0 < done_pre.len() && done_pre[k0].1 is Ok && entry_matches(
                                entries_pre[i],
                                done_pre[k0].0,
                                done_pre[k0].1->Ok_0@,
                            );
                        assert(0 <= k0 < done.len() && done[k0].1 is Ok && entry_matches(
                            entries@[i],
                            done[k0].0,
                            done[k0].1->Ok_0@,
                        ));
                    } else {
                        let kl = done.len() - 1;
                        assert(0 <= kl < done.len() && done[kl].1 is Ok && entry_matches(
                            entries@[i],
                            done[kl].0,
                            done[kl].1->Ok_0@,
                        ));
                    }
                }
                assert(rest@ =~= rest_pre.remove(0));
                assert(done + rest@ =~= all);
            }
        }
        proof {
            assert(done =~= all);
        }
        let builds = sorted_catalog(entries);
        proof {
            lemma_sort_catalog_props(entries@);
            broadcast use vstd::seq_lib::group_to_multiset_ensures;

            assert forall|i: int| 0 <= i < builds@.len() implies exists|k: int|
                0 <= k < fetched@.len() && fetched@[k].1 is Ok && entry_matches(
                    #[trigger] builds@[i],
                    fetched@[k].0,
                    fetched@[k].1->Ok_0@,
                ) by {
                assert(builds@.to_multiset().contains(builds@[i])) by {
                    assert(builds@.contains(builds@[i]));
                }
                assert(entries@.contains(builds@[i]));
                let e = choose|e: int| 0 <= e < entries@.len() && entries@[e] == builds@[i];
            }
        }
        UggBuildData { patch_version, builds }
    }

    /// The rune page the catalog recommends for a champion and
    /// position, named with the ownership marker, or `None` when the
    /// catalog holds no such build.
    pub fn get_perks_page(&self, champion_key: i64, position: &Position) -> (r: Option<PerksPage>)
        ensures
            r is Some <==> (find_champion_spec(self.builds@, champion_key) matches Some(entry)
                && find_build_spec(entry.1@, *position) is Some),
            r matches Some(p) ==> {
                let entry = find_champion_spec(self.builds@, champion_key)->0;
                let b = find_build_spec(entry.1@, *position)->0;
                &&& p.name@ == "[LH] "@ + entry.0.name@ + " "@ + position.name_spec()
                &&& p.primary_style_id == b.rune_page.primary_tree
                &&& p.sub_style_id == b.rune_page.secondary_tree
                &&& p.selected_perk_ids@ == b.rune_page.runes@
            },
    {
        let entry = match find_champion(&self.builds, champion_key) {
            Some(e) => e,
            None => {
                return None;
            },
        };
        let b = match find_build(&entry.1, position) {
            Some(b) => b,
            None => {
                return None;
            },
        };
        let mut name = String::new();
        name.append("[LH] ");
        name.append(entry.0.name.as_str());
        name.append(" ");
        name.append(position.name());
        proof {
            assert(name@ =~= "[LH] "@ + entry.0.name@ + " "@ + position.name_spec());
        }
        Some(
            PerksPage {
                name,
                primary_style_id: b.rune_page.primary_tree,
                sub_style_id: b.rune_page.secondary_tree,
                selected_perk_ids: clone_ids(&b.rune_page.runes),
            },
        )
    }

    /// The summoner spells the catalog recommends for a champion and
    /// position, or `None` when the catalog holds no such build.
    pub fn get_summoner_spells(&self, champion_key: i64, position: &Position) -> (r: Option<
        &SummonerSpells,
    >)
        ensures
            r is Some <==> (find_champion_spec(self.builds@, champion_key) matches Some(entry)
                && find_build_spec(entry.1@, *position) is Some),
            r matches Some(s) ==> *s == (find_build_spec(
                (find_champion_spec(self.builds@, champion_key)->0).1@,
                *position,
            )->0).summoner_spells,
    {
        let entry = match find_champion(&self.builds, champion_key) {
            Some(e) => e,
            None => {
                return None;
            },
        };
        match find_build(&entry.1, position) {
            Some(b) => Some(&b.summoner_spells),
            None => None,
        }
    }
}

/// How many champions' fetches succeeded.
pub open spec fn kept_count(
    fs: Seq<(Champion, Result<Vec<Result<BuildData, LeagueHelperError>>, LeagueHelperError>)>,
) -> int
    decreases fs.len(),
{
    if fs.len() == 0 {
        0
    } else {
        kept_count(fs.drop_last()) + if fs.last().1 is Ok {
            1int
        } else {
            0int
        }
    }
}

/// Copies a list of rune IDs.
fn clone_ids(ids: &Vec<i64>) -> (r: Vec<i64>)
    ensures
        r@ == ids@,
{
    let mut out: Vec<i64> = Vec::new();
    for i in 0..ids.len()
        invariant
            out@ == ids@.subrange(0, i as int),
    {
        out.push(ids[i]);
        proof {
            assert(ids@.subrange(0, i as int + 1) =~= ids@.subrange(0, i as int).push(
                ids@[i as int],
            ));
        }
    }
    proof {
        assert(ids@.subrange(0, ids@.len() as int) =~= ids@);
    }
    out
}

/// The first catalog entry for a champion key, if any.
fn find_champion<'a>(
    builds: &'a Vec<(Champion, Vec<BuildData>)>,
    key: i64,
) -> (r: Option<&'a (Champion, Vec<BuildData>)>)
    ensures
        r matches Some(e) ==> find_champion_spec(builds@, key) == Some(*e),
        r is None ==> find_champion_spec(builds@, key) is None,
{
    let ghost all = builds@;
    proof {
        assert(all.skip(0) =~= all);
    }
    for k in 0..builds.len()
        invariant
            all == builds@,
            find_champion_spec(all, key) == find_champion_spec(all.skip(k as int), key),
    {
        proof {
            assert(all.skip(k as int).len() > 0);
            assert(all.skip(k as int)[0] == all[k as int]);
        }
        if builds[k].0.key == key {
            return Some(&builds[k]);
        }
        proof {
            assert(all.skip(k as int).drop_first() =~= all.skip(k as int + 1));
        }
    }
    proof {
        assert(all.skip(all.len() as int).len() == 0);
    }
    None
}

/// The first build for a position, if any.
fn find_build<'a>(builds: &'a Vec<BuildData>, position: &Position) -> (r: Option<&'a BuildData>)
    ensures
        r matches Some(b) ==> find_build_spec(builds@, *position) == Some(*b),
        r is None ==> find_build_spec(builds@, *position) is None,
{
    let ghost all = builds@;
    proof {
        assert(all.skip(0) =~= all);
    }
    for k in 0..builds.len()
        invariant
            all == builds@,
            find_build_spec(all, *position) == find_build_spec(all.skip(k as int), *position),
    {
        proof {
            assert(all.skip(k as int).len() > 0);
            assert(all.skip(k as int)[0] == all[k as int]);
        }
        if builds[k].position == *position {
            return Some(&builds[k]);
        }
        proof {
            assert(all.skip(k as int).drop_first() =~= all.skip(k as int + 1));
        }
    }
    proof {
        assert(all.skip(all.len() as int).len() == 0);
    }
    None
}

} // verus!
