//! Game-data catalog shapes: item pages and details, resource legality,
//! install references and load tiers, the pooled mission catalog, and the
//! plain weapon records the weapon enhancer reads.

use vstd::prelude::*;

use crate::cooked::LegalityKind;
use crate::text::{chars_of, dec_nat, str_eq};

verus! {

/// One page of item search results.
#[derive(Debug, Clone)]
pub struct ItemPage {
    /// Total matches before pagination.
    pub total: usize,
    pub rows: Vec<ItemRow>,
}

#[derive(Debug, Clone)]
pub struct ItemRow {
    pub guid: String,
    pub name: String,
    pub item_type: String,
    pub item_sub_type: String,
    pub size: i32,
    pub grade: i32,
}

/// A ship weapon's identity facts: its locale keys and size.
#[derive(Debug, Clone)]
pub struct ShipWeaponEntry {
    pub guid: String,
    pub name_key: Option<String>,
    pub desc_key: Option<String>,
    pub size: i32,
}

/// A missile's or torpedo's identity facts: locale keys, size, the signal
/// its seeker tracks (`"Infrared"`, `"Electromagnetic"`, `"CrossSection"`)
/// when it has a tracking profile, and whether it is a torpedo.
#[derive(Debug, Clone)]
pub struct MissileEntry {
    pub guid: String,
    pub name_key: Option<String>,
    pub desc_key: Option<String>,
    pub size: i32,
    pub tracking_signal: Option<String>,
    pub is_torpedo: bool,
}

/// Full per-item view for the detail panel.
#[derive(Debug, Clone)]
pub struct ItemDetail {
    pub guid: String,
    pub name: String,
    pub short_name: Option<String>,
    pub description: Option<String>,
    pub item_type: String,
    pub item_sub_type: String,
    pub size: i32,
    pub grade: i32,
    /// Record path, when known.
    pub record_path: Option<String>,
    /// The weapons-index record when this item is a ship weapon.
    pub ship_weapon: Option<ShipWeaponEntry>,
    /// The weapons-index record when this item is a missile / torpedo.
    pub missile: Option<MissileEntry>,
}

/// One resource for the catalog: resolved name and description, the
/// resolved name of what it refines into, its legality verdict, and the
/// position of its record (density figures are attached by position).
#[derive(Debug, Clone)]
pub struct ResourceRow {
    pub guid: String,
    pub name: String,
    pub description: Option<String>,
    pub refined_into: Option<String>,
    pub legality: Option<ResourceLegality>,
    pub record: usize,
}

/// A manufacturer row: GUID, code and resolved name.
#[derive(Debug, Clone)]
pub struct ManufacturerRow {
    pub guid: String,
    pub code: String,
    pub name: Option<String>,
}

/// A resource's legality verdict, resolved for display.
#[derive(Debug, Clone)]
pub struct ResourceLegality {
    pub kind: LegalityKind,
    /// Resolved jurisdiction names (record-name fallback).
    pub jurisdictions: Vec<String>,
}

/// Item search parameters. `text` matches case-insensitively against the
/// resolved display name and the GUID; empty text matches everything.
#[derive(Debug, Clone)]
pub struct ItemQuery {
    pub text: String,
    /// Exact item type string, if filtering by type.
    pub item_type: Option<String>,
    pub offset: usize,
    pub limit: usize,
}

/// How likely a mission is to hand the player a crimestat by accident.
#[derive(Debug, Clone, Copy, PartialEq, Eq, Structural)]
pub enum CrimestatRisk {
    /// Neither signal present (`None` in the game-data vocabulary).
    Clear,
    /// Friendlies present WITH HUD markers.
    Moderate,
    /// Friendlies present WITHOUT HUD markers.
    High,
}

/// What the data service needs to know about one SC install.
#[derive(Debug, Clone)]
pub struct InstallRef {
    /// Lowercase channel label (e.g. `"live"`).
    pub channel_key: String,
    /// Full path to the install's `Data.p4k`.
    pub p4k_path: String,
    /// The snapshot staleness key.
    pub build_id: String,
    /// Version label.
    pub version: String,
}

/// Which cache tier a load will (likely) use.
#[derive(Debug, Clone, Copy, PartialEq, Eq, Structural)]
pub enum LoadTier {
    /// Processed snapshot present — sub-second.
    Processed,
    /// Only the raw extract snapshot — re-parse, ~15-20s.
    Extract,
    /// Nothing cached — live `Data.p4k` parse, ~30s+.
    Live,
}

/// Coarse progress stages for the load waterfall.
#[derive(Debug, Clone, Copy, PartialEq, Eq, Structural)]
pub enum Stage {
    LoadingSnapshot,
    OpeningP4k,
    Extracting,
    Parsing,
    Cooking,
    Saving,
}

/// The kebab-case stage name the UI receives.
pub fn stage_str(stage: Stage) -> (r: &'static str)
    ensures
        r@ == match stage {
            Stage::LoadingSnapshot => "loading-snapshot"@,
            Stage::OpeningP4k => "opening-p4k"@,
            Stage::Extracting => "extracting"@,
            Stage::Parsing => "parsing"@,
            Stage::Cooking => "cooking"@,
            Stage::Saving => "saving"@,
        },
{
    match stage {
        Stage::LoadingSnapshot => "loading-snapshot",
        Stage::OpeningP4k => "opening-p4k",
        Stage::Extracting => "extracting",
        Stage::Parsing => "parsing",
        Stage::Cooking => "cooking",
        Stage::Saving => "saving",
    }
}

/// Cache/load state for one install.
#[derive(Debug, Clone)]
pub struct DataStatus {
    pub loaded: bool,
    pub predicted_tier: LoadTier,
    pub item_count: Option<usize>,
    pub resource_count: Option<usize>,
    pub mission_count: Option<usize>,
}

// ── Install ordering ────────────────────────────────────────────────────────

/// The digits after the last `.` of a version label, when that tail is a
/// non-empty run of ASCII digits whose value fits in 64 bits.
pub open spec fn changelist_spec(version: Seq<char>) -> nat {
    let tail = version.skip(last_dot_end(version));
    if tail.len() > 0 && forall|i: int| 0 <= i < tail.len() ==> '0' <= #[trigger] tail[i] <= '9' {
        if digits_value(tail) <= u64::MAX {
            digits_value(tail)
        } else {
            0
        }
    } else {
        0
    }
}

/// Index just past the last `.` (0 when there is none).
pub open spec fn last_dot_end(s: Seq<char>) -> int
    decreases s.len(),
{
    if s.len() == 0 {
        0
    } else if s.last() == '.' {
        s.len() as int
    } else {
        last_dot_end(s.drop_last())
    }
}

/// The decimal value of a digit string.
pub open spec fn digits_value(d: Seq<char>) -> nat
    decreases d.len(),
{
    if d.len() == 0 {
        0
    } else {
        digits_value(d.drop_last()) * 10 + (d.last() as nat - '0' as nat) as nat
    }
}

proof fn lemma_last_dot_end_bound(s: Seq<char>)
    ensures
        0 <= last_dot_end(s) <= s.len(),
        last_dot_end(s) > 0 ==> s[last_dot_end(s) - 1] == '.',
        forall|i: int| last_dot_end(s) <= i < s.len() ==> s[i] != '.',
    decreases s.len(),
{
    if s.len() > 0 && s.last() != '.' {
        lemma_last_dot_end_bound(s.drop_last());
        assert forall|i: int| last_dot_end(s) <= i < s.len() implies s[i] != '.' by {
            if i < s.len() - 1 {
                assert(s.drop_last()[i] == s[i]);
            }
        }
    }
}

/// The changelist embedded in a version label (`"4.8.3-live.12122953"` →
/// `12122953`) — monotonic across channels, so it orders builds by
/// recency. `0` when the label doesn't end in digits.
pub fn changelist(version: &str) -> (r: u64)
    ensures
        r == changelist_spec(version@),
{
    let v = chars_of(version);
    let n = v.len();
    let mut start = n;
    proof {
        lemma_last_dot_end_bound(v@);
    }
    assert(v@.take(n as int) =~= v@);
    while start > 0 && v[start - 1] != '.'
        invariant
            start <= n == v@.len(),
            last_dot_end(v@) == last_dot_end(v@.take(start as int)),
        decreases start,
    {
        assert(v@.take(start as int).drop_last() =~= v@.take(start - 1));
        start = start - 1;
    }
    proof {
        if start > 0 {
            assert(v@.take(start as int).last() == '.');
        } else {
            assert(v@.take(0) =~= Seq::<char>::empty());
        }
        assert(v@.take(n as int) =~= v@);
    }
    assert(start == last_dot_end(v@));
    let ghost tail = v@.skip(start as int);
    if start == n {
        return 0;
    }
    let mut value: u64 = 0;
    let mut i = start;
    while i < n
        invariant
            start <= i <= n == v@.len(),
            start < n,
            v@ == version@,
            start == last_dot_end(v@),
            tail == v@.skip(start as int),
            forall|j: int| start <= j < i ==> '0' <= #[trigger] v@[j] <= '9',
            value == digits_value(v@.subrange(start as int, i as int)),
        decreases n - i,
    {
        let c = v[i];
        if !('0' <= c && c <= '9') {
            assert(tail[i - start] == c);
            assert(!('0' <= tail[i - start] <= '9'));
            return 0;
        }
        let d = digit_value(c);
        assert(v@.subrange(start as int, i + 1).drop_last() =~= v@.subrange(start as int, i as int));
        if value > 1844674407370955161 || (value == 1844674407370955161 && d > 5) {
            proof {
                assert(v@.subrange(start as int, i + 1) =~= tail.take(i + 1 - start));
                assert(digits_value(v@.subrange(start as int, i + 1)) > u64::MAX);
                if forall|j: int| 0 <= j < tail.len() ==> '0' <= #[trigger] tail[j] <= '9' {
                    lemma_digits_monotone(tail, (i + 1 - start) as int);
                }
            }
            return 0;
        }
        value = value * 10 + d;
        i = i + 1;
    }
    assert(v@.subrange(start as int, n as int) =~= tail);
    value
}

/// The value of the digit character `c`.
fn digit_value(c: char) -> (d: u64)
    requires
        '0' <= c <= '9',
    ensures
        d == c as nat - '0' as nat,
        d < 10,
{
    (c as u32 - 48) as u64
}

/// A digit string's value is at least that of any of its prefixes.
proof fn lemma_digits_monotone(d: Seq<char>, k: int)
    requires
        0 <= k <= d.len(),
        forall|i: int| 0 <= i < d.len() ==> '0' <= #[trigger] d[i] <= '9',
    ensures
        digits_value(d) >= digits_value(d.take(k)),
    decreases d.len() - k,
{
    if k < d.len() {
        lemma_digits_monotone(d, k + 1);
        assert(d.take(k + 1).drop_last() =~= d.take(k));
    } else {
        assert(d.take(k) =~= d);
    }
}

/// The channel is a persistent-universe one (`live` or `hotfix`).
pub open spec fn is_pu_channel(key: Seq<char>) -> bool {
    key == "live"@ || key == "hotfix"@
}

/// The index of the install with the greatest changelist among those
/// `pick` admits, the last one on ties.
pub open spec fn best_install(installs: Seq<InstallRef>, pu_only: bool) -> Option<int>
    decreases installs.len(),
{
    if installs.len() == 0 {
        None
    } else {
        let n = installs.len() - 1;
        let prev = best_install(installs.drop_last(), pu_only);
        if pu_only && !is_pu_channel(installs[n].channel_key@) {
            prev
        } else {
            match prev {
                Some(b) => if changelist_spec(installs[n].version@) >= changelist_spec(installs[b].version@) {
                    Some(n)
                } else {
                    Some(b)
                },
                None => Some(n),
            }
        }
    }
}

/// The install `pick` admits at `i`: any, or with `pu_only` a Live or
/// Hotfix one.
pub open spec fn admits(installs: Seq<InstallRef>, pu_only: bool, i: int) -> bool {
    !pu_only || is_pu_channel(installs[i].channel_key@)
}

/// The pick is an admitted install whose changelist is at least every
/// other admitted install's; there is none only when nothing is admitted.
pub proof fn lemma_best_install_is_newest(installs: Seq<InstallRef>, pu_only: bool)
    ensures
        match best_install(installs, pu_only) {
            Some(b) => 0 <= b < installs.len() && admits(installs, pu_only, b) && forall|j: int|
                0 <= j < installs.len() && admits(installs, pu_only, j) ==> changelist_spec(
                    (#[trigger] installs[j]).version@,
                ) <= changelist_spec(installs[b].version@),
            None => forall|j: int| 0 <= j < installs.len() ==> !#[trigger] admits(installs, pu_only, j),
        },
    decreases installs.len(),
{
    if installs.len() > 0 {
        let t = installs.drop_last();
        lemma_best_install_is_newest(t, pu_only);
        let n = installs.len() - 1;
        assert forall|j: int| 0 <= j < t.len() implies #[trigger] admits(t, pu_only, j) == admits(
            installs,
            pu_only,
            j,
        ) && t[j] == installs[j] by {}
        match best_install(t, pu_only) {
            Some(b) => {
                assert(t[b] == installs[b]);
                assert forall|j: int| 0 <= j < installs.len() && admits(installs, pu_only, j) implies changelist_spec(
                    (#[trigger] installs[j]).version@,
                ) <= changelist_spec(installs[best_install(installs, pu_only)->0].version@) by {
                    if j < n {
                        assert(t[j] == installs[j]);
                        assert(admits(t, pu_only, j));
                    }
                }
            },
            None => {
                assert forall|j: int| 0 <= j < installs.len() && admits(installs, pu_only, j) implies j == n by {
                    if j < n {
                        assert(admits(t, pu_only, j));
                    }
                }
            },
        }
    }
}

/// The default install is the newest admitted one: a Live or Hotfix
/// install with the greatest changelist among them when there is any,
/// else the install with the greatest changelist of all; `None` only for
/// an empty list.
pub proof fn lemma_default_install_is_newest(installs: Seq<InstallRef>)
    ensures
        match default_install_spec(installs) {
            Some(b) => {
                let pu = exists|j: int| 0 <= j < installs.len() && is_pu_channel(#[trigger] installs[j].channel_key@);
                &&& 0 <= b < installs.len()
                &&& pu ==> is_pu_channel(installs[b].channel_key@)
                &&& forall|j: int|
                    0 <= j < installs.len() && (!pu || is_pu_channel(installs[j].channel_key@)) ==> changelist_spec(
                        (#[trigger] installs[j]).version@,
                    ) <= changelist_spec(installs[b].version@)
            },
            None => installs.len() == 0,
        },
{
    lemma_best_install_is_newest(installs, true);
    lemma_best_install_is_newest(installs, false);
    if exists|j: int| 0 <= j < installs.len() && is_pu_channel(#[trigger] installs[j].channel_key@) {
        let j = choose|j: int| 0 <= j < installs.len() && is_pu_channel(#[trigger] installs[j].channel_key@);
        assert(admits(installs, true, j));
    } else {
        assert forall|j: int| 0 <= j < installs.len() implies !#[trigger] admits(installs, true, j) by {}
        if installs.len() > 0 {
            assert(admits(installs, false, 0));
        }
    }
}

/// The install the app treats as the user's default: the newest PU build
/// (Live/Hotfix), falling back to the newest install of any channel.
pub open spec fn default_install_spec(installs: Seq<InstallRef>) -> Option<int> {
    match best_install(installs, true) {
        Some(i) => Some(i),
        None => best_install(installs, false),
    }
}

fn best_install_exec(installs: &Vec<InstallRef>, pu_only: bool) -> (r: Option<usize>)
    ensures
        match r {
            Some(i) => best_install(installs@, pu_only) == Some(i as int),
            None => best_install(installs@, pu_only) is None,
        },
{
    let mut best: Option<usize> = None;
    let mut best_cl: u64 = 0;
    let mut i: usize = 0;
    while i < installs.len()
        invariant
            i <= installs@.len(),
            match best {
                Some(b) => best_install(installs@.take(i as int), pu_only) == Some(b as int) && b < i
                    && best_cl == changelist_spec(installs@[b as int].version@),
                None => best_install(installs@.take(i as int), pu_only) is None,
            },
        decreases installs@.len() - i,
    {
        let ins = &installs[i];
        assert(installs@.take(i + 1).drop_last() =~= installs@.take(i as int));
        assert(installs@.take(i + 1)[i as int] == installs@[i as int]);
        proof {
            if let Some(b) = best {
                assert(installs@.take(i + 1)[b as int] == installs@[b as int]);
            }
        }
        let admitted = !pu_only || str_eq(ins.channel_key.as_str(), "live") || str_eq(
            ins.channel_key.as_str(),
            "hotfix",
        );
        if admitted {
            let cl = changelist(ins.version.as_str());
            match best {
                Some(b) => {
                    if cl >= best_cl {
                        best = Some(i);
                        best_cl = cl;
                    }
                },
                None => {
                    best = Some(i);
                    best_cl = cl;
                },
            }
        }
        i = i + 1;
    }
    assert(installs@.take(installs@.len() as int) =~= installs@);
    best
}

/// Index of the install the app treats as the user's default (see
/// [`default_install_spec`]); `None` when there are no installs.
pub fn default_install(installs: &Vec<InstallRef>) -> (r: Option<usize>)
    ensures
        match r {
            Some(i) => default_install_spec(installs@) == Some(i as int),
            None => default_install_spec(installs@) is None,
        },
        match r {
            Some(i) => {
                let pu = exists|j: int| 0 <= j < installs@.len() && is_pu_channel(#[trigger] installs@[j].channel_key@);
                &&& i < installs@.len()
                &&& pu ==> is_pu_channel(installs@[i as int].channel_key@)
                &&& forall|j: int|
                    0 <= j < installs@.len() && (!pu || is_pu_channel(installs@[j].channel_key@)) ==> changelist_spec(
                        (#[trigger] installs@[j]).version@,
                    ) <= changelist_spec(installs@[i as int].version@)
            },
            None => installs@.len() == 0,
        },
{
    proof {
        lemma_default_install_is_newest(installs@);
    }
    match best_install_exec(installs, true) {
        Some(i) => Some(i),
        None => best_install_exec(installs, false),
    }
}

// ── Mission catalog ─────────────────────────────────────────────────────────

#[derive(Debug, Clone, PartialEq)]
pub struct MissionCategory {
    pub name: Option<String>,
    pub icon: String,
}

#[derive(Debug, Clone, PartialEq)]
pub struct MissionFaction {
    pub guid: String,
    pub name: Option<String>,
}

#[derive(Debug, Clone, Copy, PartialEq, Eq, Structural)]
pub struct MissionDifficulty {
    pub mechanical_skill: u8,
    pub mental_load: u8,
    pub risk_of_loss: u8,
    pub game_knowledge: u8,
}

#[derive(Debug, Clone, PartialEq, Eq)]
pub struct ScripReward {
    pub name: Option<String>,
    pub amount: i32,
}

#[derive(Debug, Clone, PartialEq, Eq)]
pub struct RepReward {
    pub faction_guid: Option<String>,
    pub amount: Option<i32>,
}

#[derive(Debug, Clone, PartialEq, Eq)]
pub struct ItemReward {
    pub entity_guid: String,
    pub name: Option<String>,
    pub amount: i32,
}

#[derive(Debug, Clone, PartialEq)]
pub struct RepRequirement {
    pub faction: Option<String>,
    pub min_rank: Option<String>,
    pub max_rank: Option<String>,
    pub min_rank_index: Option<i32>,
    pub max_rank_index: Option<i32>,
    pub exclude: bool,
}

#[derive(Debug, Clone, PartialEq, Eq)]
pub struct MissionRef {
    pub mission_id: String,
    pub title: Option<String>,
    pub once_only: bool,
}

#[derive(Debug, Clone, PartialEq)]
pub struct MissionRegion {
    pub system: String,
    pub name: String,
    pub places: Vec<MissionPlace>,
}

#[derive(Debug, Clone, PartialEq)]
pub struct MissionPlace {
    pub name: Option<String>,
    pub record_name: String,
    pub kind: Option<String>,
}

#[derive(Debug, Clone, PartialEq)]
pub struct MissionEncounter {
    pub label: String,
    pub difficulty: Option<String>,
    pub waves: Vec<MissionWave>,
}

#[derive(Debug, Clone, PartialEq)]
pub struct MissionWave {
    pub name: String,
    pub ships: Vec<ShipSlot>,
    pub cargo: Vec<String>,
}

#[derive(Debug, Clone, PartialEq)]
pub struct ShipSlot {
    pub count_min: i32,
    pub count_max: i32,
    pub ships: Vec<String>,
    pub factions: Vec<String>,
}

} // verus!
