//! The shapes the desktop UI receives for the game-data and text-patching
//! pages, and the rules that fill them: display casing of channel keys,
//! load-tier and legality labels, status views, and the per-install patch
//! state label.

use vstd::prelude::*;

use crate::catalog::{DataStatus, InstallRef, LoadTier};
use crate::cooked::LegalityKind;
use crate::ops::{ChoiceOption, LangpatchConfig, OptionKind, PatcherOption, enabled_spec};
use crate::shell::{list_contains, lists};
use crate::state::{Fingerprint, InstallPatchState, PatchPlan, StrSet, opt_text, plan_for, plan_spec, set_of};
use crate::strmap::lookup;
use crate::strmap::StrMap;
use crate::text::chars_of;

verus! {

/// The uppercase mapping of a character (Unicode; may be several
/// characters).
pub uninterp spec fn char_uppercase(c: char) -> Seq<char>;

/// `char::to_uppercase`, collected: the mapping [`char_uppercase`] names;
/// ASCII lowercase letters map to their one uppercase letter, and every
/// other ASCII character maps to itself.
#[verifier::external_body]
fn uppercase_of(c: char) -> (r: String)
    ensures
        r@ == char_uppercase(c),
        'a' <= c <= 'z' ==> r@ == seq![((c as int) - 32) as char],
        (c as int) < 128 && !('a' <= c <= 'z') ==> r@ == seq![c],
{
    c.to_uppercase().collect::<String>()
}

/// A channel key with its first character uppercased (`live` → `Live`).
pub open spec fn display_channel_spec(key: Seq<char>) -> Seq<char> {
    if key.len() == 0 {
        Seq::empty()
    } else {
        char_uppercase(key[0]) + key.drop_first()
    }
}

/// Restore the display casing discovery uses (the cache key is lowercase).
pub fn display_channel(key: &str) -> (r: String)
    ensures
        r@ == display_channel_spec(key@),
{
    let v = chars_of(key);
    if v.len() == 0 {
        return String::new();
    }
    let mut out = uppercase_of(v[0]);
    crate::text::push_range(&mut out, &v, 1, v.len());
    assert(v@.subrange(1, v@.len() as int) =~= v@.drop_first());
    out
}

/// Which cache tier the next load of a channel will likely hit.
#[derive(Debug, Clone, Copy, PartialEq, Eq, Structural)]
pub enum DataTierView {
    Processed,
    Extract,
    Live,
}

/// The view of a load tier.
pub open spec fn tier_view(tier: LoadTier) -> DataTierView {
    match tier {
        LoadTier::Processed => DataTierView::Processed,
        LoadTier::Extract => DataTierView::Extract,
        LoadTier::Live => DataTierView::Live,
    }
}

impl DataTierView {
    /// The view of a load tier.
    pub fn from_tier(tier: LoadTier) -> (r: DataTierView)
        ensures
            r == tier_view(tier),
    {
        match tier {
            LoadTier::Processed => DataTierView::Processed,
            LoadTier::Extract => DataTierView::Extract,
            LoadTier::Live => DataTierView::Live,
        }
    }
}

/// Cache/load state of one install, for the status cards.
#[derive(Debug, Clone)]
pub struct DataStatusView {
    /// Channel label, e.g. `"Live"`.
    pub channel: String,
    pub version: String,
    pub build_id: String,
    pub loaded: bool,
    pub predicted_tier: DataTierView,
    pub item_count: Option<u32>,
    pub resource_count: Option<u32>,
    pub mission_count: Option<u32>,
    /// The channel the app treats as the user's default.
    pub is_default: bool,
}

/// A count as the UI receives it (32 bits, truncated).
pub open spec fn count_view(n: Option<usize>) -> Option<u32> {
    match n {
        Some(k) => Some(k as u32),
        None => None,
    }
}

fn count_of(n: Option<usize>) -> (r: Option<u32>)
    ensures
        r == count_view(n),
{
    match n {
        Some(k) => Some(k as u32),
        None => None,
    }
}

impl DataStatusView {
    /// The status card of an install.
    pub fn of(install: &InstallRef, status: &DataStatus, channel: String, is_default: bool) -> (r:
        DataStatusView)
        ensures
            r.channel == channel,
            r.version == install.version,
            r.build_id == install.build_id,
            r.loaded == status.loaded,
            r.predicted_tier == tier_view(status.predicted_tier),
            r.item_count == count_view(status.item_count),
            r.resource_count == count_view(status.resource_count),
            r.mission_count == count_view(status.mission_count),
            r.is_default == is_default,
    {
        DataStatusView {
            channel,
            version: install.version.clone(),
            build_id: install.build_id.clone(),
            loaded: status.loaded,
            predicted_tier: DataTierView::from_tier(status.predicted_tier),
            item_count: count_of(status.item_count),
            resource_count: count_of(status.resource_count),
            mission_count: count_of(status.mission_count),
            is_default,
        }
    }
}

#[derive(Debug, Clone)]
pub struct ItemRowView {
    pub guid: String,
    pub name: String,
    pub item_type: String,
    pub item_sub_type: String,
    pub size: i32,
    pub grade: i32,
}

#[derive(Debug, Clone)]
pub struct ItemPageView {
    pub total: u32,
    pub rows: Vec<ItemRowView>,
}

#[derive(Debug, Clone)]
pub struct ResourceLegalityView {
    /// `"drug"` or `"contraband"`.
    pub kind: String,
    pub jurisdictions: Vec<String>,
}

/// The label of a legality category.
pub fn legality_kind_label(kind: LegalityKind) -> (r: &'static str)
    ensures
        r@ == match kind {
            LegalityKind::Drug => "drug"@,
            LegalityKind::Contraband => "contraband"@,
        },
{
    match kind {
        LegalityKind::Drug => "drug",
        LegalityKind::Contraband => "contraband",
    }
}

#[derive(Debug, Clone)]
pub struct ManufacturerRowView {
    pub guid: String,
    pub code: String,
    pub name: Option<String>,
}

#[derive(Debug, Clone)]
pub struct ItemTypeFacetView {
    pub item_type: String,
    pub count: u32,
}

/// The wire name of a crimestat risk.
pub open spec fn crimestat_label_spec(r: crate::catalog::CrimestatRisk) -> Seq<char> {
    match r {
        crate::catalog::CrimestatRisk::Clear => "none"@,
        crate::catalog::CrimestatRisk::Moderate => "moderate"@,
        crate::catalog::CrimestatRisk::High => "high"@,
    }
}

/// The wire name of a crimestat risk: `none`, `moderate` or `high` (the
/// value of [`MissionPoolFactsView::crimestat`]).
pub fn crimestat_label(r: crate::catalog::CrimestatRisk) -> (s: &'static str)
    ensures
        s@ == crimestat_label_spec(r),
{
    match r {
        crate::catalog::CrimestatRisk::Clear => "none",
        crate::catalog::CrimestatRisk::Moderate => "moderate",
        crate::catalog::CrimestatRisk::High => "high",
    }
}

#[derive(Debug, Clone)]
pub struct MissionPoolFactsView {
    pub shareable_mixed: bool,
    pub once_only_mixed: bool,
    pub illegal_mixed: bool,
    pub cooldowns_mixed: bool,
    pub scrip_mixed: bool,
    pub rep_mixed: bool,
    pub encounters_mixed: bool,
    /// `"none"`, `"moderate"` or `"high"`.
    pub crimestat: String,
    pub crimestat_mixed: bool,
}

#[derive(Debug, Clone)]
pub struct MissionCategoryView {
    pub name: Option<String>,
    pub icon: String,
}

#[derive(Debug, Clone)]
pub struct MissionFactionView {
    pub guid: String,
    pub name: Option<String>,
}

#[derive(Debug, Clone)]
pub struct MissionDifficultyView {
    pub mechanical_skill: u8,
    pub mental_load: u8,
    pub risk_of_loss: u8,
    pub game_knowledge: u8,
}

#[derive(Debug, Clone)]
pub struct ScripRewardView {
    pub name: Option<String>,
    pub amount: i32,
}

#[derive(Debug, Clone)]
pub struct RepRewardView {
    pub faction_guid: Option<String>,
    pub amount: Option<i32>,
}

#[derive(Debug, Clone)]
pub struct ItemRewardView {
    pub entity_guid: String,
    pub name: Option<String>,
    pub amount: i32,
}

#[derive(Debug, Clone)]
pub struct RepRequirementView {
    pub faction: Option<String>,
    pub min_rank: Option<String>,
    pub max_rank: Option<String>,
    pub min_rank_index: Option<i32>,
    pub max_rank_index: Option<i32>,
    pub exclude: bool,
}

#[derive(Debug, Clone)]
pub struct MissionRefView {
    pub mission_id: String,
    pub title: Option<String>,
    pub once_only: bool,
}

#[derive(Debug, Clone)]
pub struct MissionRegionView {
    pub system: String,
    pub name: String,
    pub places: Vec<MissionPlaceView>,
}

#[derive(Debug, Clone)]
pub struct MissionPlaceView {
    pub name: Option<String>,
    pub record_name: String,
    pub kind: Option<String>,
}

#[derive(Debug, Clone)]
pub struct MissionEncounterView {
    pub label: String,
    pub difficulty: Option<String>,
    pub waves: Vec<MissionWaveView>,
}

#[derive(Debug, Clone)]
pub struct MissionWaveView {
    pub name: String,
    pub ships: Vec<ShipSlotView>,
    pub cargo: Vec<String>,
}

#[derive(Debug, Clone)]
pub struct ShipSlotView {
    pub count_min: i32,
    pub count_max: i32,
    pub ships: Vec<String>,
    pub factions: Vec<String>,
}

// ── Text patching page ──────────────────────────────────────────────────────

/// The whole Text Patching page state.
pub struct LangpatchOverview {
    pub auto_patch: bool,
    pub channels: Vec<String>,
    pub language_pack: Option<String>,
    pub patchers: Vec<PatcherInfoView>,
    pub installs: Vec<LangpatchInstallView>,
}

/// One patcher as the page lists it.
pub struct PatcherInfoView {
    pub id: String,
    pub name: String,
    pub description: String,
    pub enabled: bool,
    /// Overwrites community-pack text for its keys (UI warning badge).
    pub uses_replace_ops: bool,
    pub options: Vec<PatcherOptionView>,
    /// Chosen option values (option id → value); missing = default.
    pub values: StrMap<String>,
}

#[derive(Debug, Clone)]
pub struct PatcherOptionView {
    pub id: String,
    pub label: String,
    pub description: String,
    pub default: String,
    pub kind: OptionKindView,
}

#[derive(Debug, Clone)]
pub enum OptionKindView {
    Bool,
    Choice { choices: Vec<ChoiceView> },
}

#[derive(Debug, Clone)]
pub struct ChoiceView {
    pub value: String,
    pub label: String,
}

/// One install as the page lists it.
#[derive(Debug, Clone)]
pub struct LangpatchInstallView {
    /// Display channel ("Live").
    pub channel: String,
    /// Lowercase key ("live").
    pub channel_key: String,
    pub version: String,
    /// In the user's patch set.
    pub selected: bool,
    /// `"up-to-date" | "stale" | "foreign" | "unpatched"`.
    pub state: String,
    pub patched_at: Option<String>,
}

/// The state label of an install: up to date, foreign, stale (a re-apply
/// over a previous patch or an existing file) or unpatched.
pub open spec fn install_state_spec(plan: PatchPlan, has_entry: bool, has_disk_file: bool) -> Seq<char> {
    match plan {
        PatchPlan::UpToDate => "up-to-date"@,
        PatchPlan::Foreign => "foreign"@,
        PatchPlan::Apply => if has_entry || has_disk_file {
            "stale"@
        } else {
            "unpatched"@
        },
    }
}

/// The state label of an install from its reconciliation plan, whether a
/// state record exists for it, and whether an override file is on disk.
pub fn install_state_label(plan: PatchPlan, has_entry: bool, has_disk_file: bool) -> (r: &'static str)
    ensures
        r@ == install_state_spec(plan, has_entry, has_disk_file),
{
    match plan {
        PatchPlan::UpToDate => "up-to-date",
        PatchPlan::Foreign => "foreign",
        PatchPlan::Apply => if has_entry || has_disk_file {
            "stale"
        } else {
            "unpatched"
        },
    }
}

/// The module-config update the page submits.
pub struct LangpatchConfigUpdate {
    pub auto_patch: bool,
    pub channels: Vec<String>,
    pub language_pack: Option<String>,
    /// patcher id → (enabled, option values).
    pub patchers: StrMap<PatcherConfigUpdate>,
}

/// One patcher's submitted settings.
pub struct PatcherConfigUpdate {
    pub enabled: Option<bool>,
    pub options: StrMap<String>,
}

} // verus!

verus! {

impl LangpatchInstallView {
    /// One install's row: its display channel, whether it is in the patch
    /// set, and its state label from the reconciliation plan against the
    /// desired fingerprint, the override on disk and the hashes ever
    /// written.
    pub fn build(
        channel_key: &str,
        version: &str,
        config: &LangpatchConfig,
        entry: Option<&InstallPatchState>,
        desired: &Fingerprint,
        disk_sha: Option<&str>,
        known: &StrSet,
    ) -> (r: LangpatchInstallView)
        requires
            known.wf(),
        ensures
            r.channel@ == display_channel_spec(channel_key@),
            r.channel_key@ == channel_key@,
            r.version@ == version@,
            r.selected == lists(config.channels@, channel_key@),
            r.state@ == install_state_spec(
                plan_spec(
                    match entry {
                        Some(e) => Some(*e),
                        None => None,
                    },
                    *desired,
                    match disk_sha {
                        Some(d) => Some(d@),
                        None => None,
                    },
                    set_of(known@),
                ),
                entry is Some,
                disk_sha is Some,
            ),
            opt_text(r.patched_at) == match entry {
                Some(e) => Some(e.patched_at@),
                None => None,
            },
    {
        let plan = plan_for(entry, desired, disk_sha, known);
        let state = install_state_label(plan, entry.is_some(), disk_sha.is_some());
        LangpatchInstallView {
            channel: display_channel(channel_key),
            channel_key: channel_key.to_owned(),
            version: version.to_owned(),
            selected: list_contains(&config.channels, channel_key),
            state: state.to_owned(),
            patched_at: match entry {
                Some(e) => Some(e.patched_at.clone()),
                None => None,
            },
        }
    }
}

/// The choice values and labels of a choice list.
pub open spec fn choice_texts(v: Seq<ChoiceOption>) -> Seq<(Seq<char>, Seq<char>)> {
    v.map_values(|c: ChoiceOption| (c.value@, c.label@))
}

pub open spec fn choice_view_texts(v: Seq<ChoiceView>) -> Seq<(Seq<char>, Seq<char>)> {
    v.map_values(|c: ChoiceView| (c.value@, c.label@))
}

/// An option row read as text, in the shape of [`crate::ops::option_text`].
pub open spec fn option_view_text(v: PatcherOptionView) -> crate::ops::OptionText {
    (
        v.id@,
        v.label@,
        v.description@,
        v.default@,
        match v.kind {
            OptionKindView::Bool => None,
            OptionKindView::Choice { choices } => Some(choice_view_texts(choices@)),
        },
    )
}

/// Option rows read as text, in order.
pub open spec fn option_view_texts(v: Seq<PatcherOptionView>) -> Seq<crate::ops::OptionText> {
    v.map_values(|o: PatcherOptionView| option_view_text(o))
}

impl PatcherOptionView {
    /// An option as the page lists it.
    pub fn of(o: &PatcherOption) -> (r: PatcherOptionView)
        ensures
            r.id@ == o.id@,
            r.label@ == o.label@,
            r.description@ == o.description@,
            r.default@ == o.default@,
            match (o.kind, r.kind) {
                (OptionKind::Bool, OptionKindView::Bool) => true,
                (OptionKind::Choice { choices: a }, OptionKindView::Choice { choices: b }) => choice_texts(a@)
                    == choice_view_texts(b@),
                _ => false,
            },
            option_view_text(r) == crate::ops::option_text(*o),
    {
        let kind = match &o.kind {
            OptionKind::Bool => OptionKindView::Bool,
            OptionKind::Choice { choices } => {
                let mut out: Vec<ChoiceView> = Vec::new();
                let mut i: usize = 0;
                while i < choices.len()
                    invariant
                        i <= choices@.len(),
                        choice_view_texts(out@) =~= choice_texts(choices@.take(i as int)),
                    decreases choices@.len() - i,
                {
                    let ghost before = out@;
                    let c = ChoiceView { value: choices[i].value.clone(), label: choices[i].label.clone() };
                    assert(c.value@ == choices@[i as int].value@ && c.label@ == choices@[i as int].label@);
                    out.push(c);
                    proof {
                        assert(choices@.take(i + 1) =~= choices@.take(i as int).push(choices@[i as int]));
                        assert(out@ =~= before.push(c));
                        assert(choice_view_texts(out@) =~= choice_view_texts(before).push((c.value@, c.label@)));
                        assert(choice_texts(choices@.take(i + 1)) =~= choice_texts(choices@.take(i as int)).push(
                            (choices@[i as int].value@, choices@[i as int].label@),
                        ));
                    }
                    i = i + 1;
                }
                assert(choices@.take(choices@.len() as int) =~= choices@);
                OptionKindView::Choice { choices: out }
            },
        };
        PatcherOptionView {
            id: o.id.clone(),
            label: o.label.clone(),
            description: o.description.clone(),
            default: o.default.clone(),
            kind,
        }
    }
}

impl PatcherInfoView {
    /// A patcher as the page lists it, with its effective enabled state
    /// and the option values chosen under `config`.
    pub fn of(p: &dyn crate::Patcher, config: &LangpatchConfig) -> (r: PatcherInfoView)
        requires
            config.patchers.wf(),
            forall|i: int| 0 <= i < config.patchers@.len() ==> (#[trigger] config.patchers@[i]).1.options.wf(),
        ensures
            r.id@ == p.spec_id(),
            r.name@ == p.spec_name(),
            r.description@ == p.spec_description(),
            r.uses_replace_ops == p.spec_uses_replace_ops(),
            option_view_texts(r.options@) == p.spec_options(),
            r.enabled == enabled_spec(*config, p.spec_id(), p.spec_default_enabled()),
            r.values@ == match lookup(config.patchers@, p.spec_id()) {
                Some(c) => c.options@,
                None => Seq::empty(),
            },
    {
        let id = p.id();
        let enabled = match config.patchers.get(id) {
            Some(c) => match c.enabled {
                Some(b) => b,
                None => p.default_enabled(),
            },
            None => p.default_enabled(),
        };
        assert(id@ == p.spec_id());
        let opts = p.options();
        let mut options: Vec<PatcherOptionView> = Vec::new();
        let mut i: usize = 0;
        while i < opts.len()
            invariant
                i <= opts@.len(),
                options@.len() == i,
                option_view_texts(options@) == crate::ops::options_text(opts@).take(i as int),
            decreases opts@.len() - i,
        {
            let ov = PatcherOptionView::of(&opts[i]);
            let ghost before = options@;
            options.push(ov);
            assert(option_view_texts(options@) =~= crate::ops::options_text(opts@).take(i + 1)) by {
                assert(options@ == before.push(ov));
                assert forall|q: int| 0 <= q < i + 1 implies #[trigger] option_view_texts(options@)[q]
                    == crate::ops::options_text(opts@).take(i + 1)[q] by {
                    if q < i {
                        assert(options@[q] == before[q]);
                        assert(option_view_texts(before)[q] == crate::ops::options_text(opts@).take(i as int)[q]);
                    }
                }
            }
            i = i + 1;
        }
        assert(crate::ops::options_text(opts@).take(opts@.len() as int) =~= crate::ops::options_text(opts@));
        PatcherInfoView {
            id: id.to_owned(),
            name: p.name().to_owned(),
            description: p.description().to_owned(),
            enabled,
            uses_replace_ops: p.uses_replace_ops(),
            options,
            values: config.patcher_config(id).options,
        }
    }
}

} // verus!
