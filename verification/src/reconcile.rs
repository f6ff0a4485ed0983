//! Reconciliation decisions for the maintained-state text patch: which
//! installs are reconciled, what one install's plan leads to (stop with an
//! outcome, or apply), what a failed apply falls back to, the state
//! recorded after a successful one, and the notices the user sees. The
//! shell performs the I/O in between (hashing the file on disk, checking
//! whether the game runs, applying, saving state) and feeds the results
//! back here.

use vstd::prelude::*;

use crate::catalog::InstallRef;
use crate::ops::{LangpatchConfig, PatcherConfig};
use crate::shell::{NotifLevel, Notification, lists};
use crate::state::{Fingerprint, InstallPatchState, PatchPlan, opt_text};
use crate::strmap::{StrMap, lookup};
use crate::text::{ascii_lower, concat, str_eq, to_ascii_lowercase};
use crate::views::{LangpatchConfigUpdate, PatcherConfigUpdate, display_channel, display_channel_spec};

verus! {

// ── Outcomes and the next step ─────────────────────────────────────────────

/// How one install's reconciliation ended.
#[derive(Debug, Clone, Copy, PartialEq, Eq, Structural)]
pub enum Outcome {
    UpToDate,
    Applied,
    /// Foreign file present — automatic patching paused, user action needed.
    ForeignPaused,
    /// The game is running — deferred until it exits.
    Deferred,
    /// Apply failed on a stale override → removed to vanilla.
    RemovedStale,
}

/// What to do after planning one install.
#[derive(Debug, Clone, Copy, PartialEq, Eq, Structural)]
pub enum Step {
    /// Stop here with this outcome.
    Stop(Outcome),
    /// Go on and apply.
    Apply,
}

/// The next step: an up-to-date install stops, a foreign file pauses (unless
/// taking over), and nothing is written while the game runs.
pub open spec fn step_spec(plan: PatchPlan, take_over: bool, sc_running: bool) -> Step {
    if plan == PatchPlan::UpToDate && !take_over {
        Step::Stop(Outcome::UpToDate)
    } else if plan == PatchPlan::Foreign && !take_over {
        Step::Stop(Outcome::ForeignPaused)
    } else if sc_running {
        Step::Stop(Outcome::Deferred)
    } else {
        Step::Apply
    }
}

/// Decide what follows a plan.
pub fn next_step(plan: PatchPlan, take_over: bool, sc_running: bool) -> (g: Step)
    ensures
        g == step_spec(plan, take_over, sc_running),
{
    match plan {
        PatchPlan::UpToDate if !take_over => Step::Stop(Outcome::UpToDate),
        PatchPlan::Foreign if !take_over => Step::Stop(Outcome::ForeignPaused),
        _ => if sc_running {
            Step::Stop(Outcome::Deferred)
        } else {
            Step::Apply
        },
    }
}

/// Nothing is ever written while the game runs, and a take-over never
/// pauses on a foreign file nor stops as up to date.
pub proof fn lemma_step_safety(plan: PatchPlan, take_over: bool, sc_running: bool)
    ensures
        sc_running ==> step_spec(plan, take_over, sc_running) != Step::Apply,
        take_over ==> step_spec(plan, take_over, sc_running) != Step::Stop(Outcome::ForeignPaused),
        take_over ==> step_spec(plan, take_over, sc_running) != Step::Stop(Outcome::UpToDate),
        !sc_running && plan == PatchPlan::Apply ==> step_spec(plan, take_over, sc_running) == Step::Apply,
{
}

/// The override on disk is from an older build: a file is present and a
/// recorded state exists with another staleness key.
pub open spec fn stale_spec(disk_sha: Option<Seq<char>>, entry: Option<InstallPatchState>, desired: Fingerprint) -> bool {
    disk_sha is Some && match entry {
        Some(e) => e.staleness_key@ != desired.staleness_key@,
        None => false,
    }
}

/// Whether a failed apply should fall back to removing the override.
pub fn stale_override_present(
    disk_sha: Option<&str>,
    entry: Option<&InstallPatchState>,
    desired: &Fingerprint,
) -> (b: bool)
    ensures
        b == stale_spec(
            match disk_sha {
                Some(d) => Some(d@),
                None => None,
            },
            match entry {
                Some(e) => Some(*e),
                None => None,
            },
            *desired,
        ),
{
    match (disk_sha, entry) {
        (Some(_), Some(e)) => !str_eq(e.staleness_key.as_str(), desired.staleness_key.as_str()),
        _ => false,
    }
}

/// After a failed apply: a stale override is removed (the install falls
/// back to vanilla text); otherwise the failure stands.
pub fn after_failed_apply(stale: bool) -> (r: Option<Outcome>)
    ensures
        r == (if stale {
            Some(Outcome::RemovedStale)
        } else {
            None::<Outcome>
        }),
{
    if stale {
        Some(Outcome::RemovedStale)
    } else {
        None
    }
}

/// The state recorded for an install after writing `output_sha256`.
pub fn applied_state(desired: &Fingerprint, output_sha256: &str, patched_at: &str) -> (s: InstallPatchState)
    ensures
        s.staleness_key@ == desired.staleness_key@,
        s.config_hash@ == desired.config_hash@,
        opt_text(s.pack_hash) == opt_text(desired.pack_hash),
        opt_text(s.owned_salt) == opt_text(desired.owned_salt),
        s.output_sha256@ == output_sha256@,
        s.patched_at@ == patched_at@,
{
    InstallPatchState {
        staleness_key: desired.staleness_key.clone(),
        config_hash: desired.config_hash.clone(),
        pack_hash: match &desired.pack_hash {
            Some(h) => Some(h.clone()),
            None => None,
        },
        owned_salt: match &desired.owned_salt {
            Some(h) => Some(h.clone()),
            None => None,
        },
        output_sha256: output_sha256.to_owned(),
        patched_at: patched_at.to_owned(),
    }
}

// ── Which installs ──────────────────────────────────────────────────────────

/// The positions of the installs the automatic path reconciles: none when
/// the module is off or automatic patching is off, else those whose
/// channel is selected, in order.
pub open spec fn targets_spec(
    module_enabled: bool,
    auto_patch: bool,
    channels: Seq<String>,
    installs: Seq<InstallRef>,
) -> Seq<int>
    decreases installs.len(),
{
    if !module_enabled || !auto_patch || installs.len() == 0 {
        Seq::empty()
    } else {
        let prev = targets_spec(module_enabled, auto_patch, channels, installs.drop_last());
        if lists(channels, installs.last().channel_key@) {
            prev.push(installs.len() - 1)
        } else {
            prev
        }
    }
}

/// Pick the installs the automatic path reconciles.
pub fn reconcile_targets(
    module_enabled: bool,
    config: &LangpatchConfig,
    installs: &Vec<InstallRef>,
) -> (r: Vec<usize>)
    ensures
        r@.map_values(|i: usize| i as int) == targets_spec(
            module_enabled,
            config.auto_patch,
            config.channels@,
            installs@,
        ),
{
    let mut r: Vec<usize> = Vec::new();
    if !module_enabled || !config.auto_patch {
        assert(r@.map_values(|i: usize| i as int) =~= targets_spec(
            module_enabled,
            config.auto_patch,
            config.channels@,
            installs@,
        )) by {
            if installs@.len() > 0 {
            }
        }
        return r;
    }
    let mut i: usize = 0;
    while i < installs.len()
        invariant
            module_enabled,
            config.auto_patch,
            i <= installs@.len(),
            r@.map_values(|i: usize| i as int) == targets_spec(
                module_enabled,
                config.auto_patch,
                config.channels@,
                installs@.take(i as int),
            ),
        decreases installs@.len() - i,
    {
        proof {
            assert(installs@.take(i + 1).drop_last() =~= installs@.take(i as int));
            assert(installs@.take(i + 1).last() == installs@[i as int]);
        }
        if crate::shell::list_contains(&config.channels, installs[i].channel_key.as_str()) {
            let ghost before = r@;
            r.push(i);
            assert(r@.map_values(|i: usize| i as int) =~= before.map_values(|i: usize| i as int).push(
                i as int,
            ));
        }
        i = i + 1;
    }
    assert(installs@.take(installs@.len() as int) =~= installs@);
    r
}

// ── Configuration updates ───────────────────────────────────────────────────

/// The option map a submitted patcher update carries.
fn copy_options(m: &StrMap<String>) -> (r: StrMap<String>)
    requires
        m.wf(),
    ensures
        r.wf(),
        r@ == m@,
{
    m.clone_map()
}

/// Whether `s` is empty after trimming whitespace.
fn blank(s: &str) -> (b: bool)
    ensures
        b == (crate::text::trim_spec(s@).len() == 0),
{
    let t = crate::text::trim_str(s);
    let v = crate::text::chars_of(t.as_str());
    v.len() == 0
}

/// A stored patcher config holds what the submitted one did.
pub open spec fn config_matches_update(c: Option<PatcherConfig>, u: Option<PatcherConfigUpdate>) -> bool {
    match (c, u) {
        (Some(c), Some(u)) => c.enabled == u.enabled && c.options@ == u.options@ && c.options.wf(),
        (None, None) => true,
        _ => false,
    }
}

/// The config a submitted update becomes: channels lowercased (ASCII), a
/// blank language pack dropped, patcher settings taken as given.
pub fn config_from_update(update: &LangpatchConfigUpdate) -> (c: LangpatchConfig)
    requires
        update.patchers.wf(),
        forall|i: int| 0 <= i < update.patchers@.len() ==> (#[trigger] update.patchers@[i]).1.options.wf(),
    ensures
        c.auto_patch == update.auto_patch,
        c.channels@.len() == update.channels@.len(),
        forall|i: int|
            0 <= i < c.channels@.len() ==> (#[trigger] c.channels@[i])@ == update.channels@[i]@.map_values(
                |ch: char| ascii_lower(ch),
            ),
        match update.language_pack {
            Some(p) => if crate::text::trim_spec(p@).len() == 0 {
                c.language_pack is None
            } else {
                c.language_pack matches Some(q) && q@ == p@
            },
            None => c.language_pack is None,
        },
        c.patchers.wf(),
        forall|k: Seq<char>|
            config_matches_update(#[trigger] lookup(c.patchers@, k), lookup(update.patchers@, k)),
{
    let mut channels: Vec<String> = Vec::new();
    let mut i: usize = 0;
    while i < update.channels.len()
        invariant
            i <= update.channels@.len(),
            channels@.len() == i,
            forall|j: int|
                0 <= j < i ==> (#[trigger] channels@[j])@ == update.channels@[j]@.map_values(
                    |ch: char| ascii_lower(ch),
                ),
        decreases update.channels@.len() - i,
    {
        channels.push(to_ascii_lowercase(update.channels[i].as_str()));
        i = i + 1;
    }
    let language_pack = match &update.language_pack {
        Some(p) => if blank(p.as_str()) {
            None
        } else {
            Some(p.clone())
        },
        None => None,
    };
    let mut patchers: StrMap<PatcherConfig> = StrMap::new();
    let mut k: usize = 0;
    let n = update.patchers.len();
    assert(update.patchers@.take(0).len() == 0);
    while k < n
        invariant
            n == update.patchers@.len(),
            k <= n,
            update.patchers.wf(),
            forall|i: int| 0 <= i < update.patchers@.len() ==> (#[trigger] update.patchers@[i]).1.options.wf(),
            patchers.wf(),
            forall|key: Seq<char>|
                config_matches_update(
                    #[trigger] lookup(patchers@, key),
                    lookup(update.patchers@.take(k as int), key),
                ),
        decreases n - k,
    {
        let id = update.patchers.key_at(k);
        let p = update.patchers.value_at(k);
        let pc = PatcherConfig { enabled: p.enabled, options: copy_options(&p.options) };
        let ghost p0 = patchers@;
        patchers.insert(id, pc);
        proof {
            let u = update.patchers@;
            update.patchers.lemma_wf_sorted();
            crate::strmap::lemma_take_sorted(u, k + 1);
            assert(u.take(k + 1) =~= u.take(k as int).push(u[k as int]));
            crate::strmap::lemma_lookup_push(u.take(k as int), u[k as int]);
            assert forall|key: Seq<char>|
                config_matches_update(
                    #[trigger] lookup(patchers@, key),
                    lookup(u.take(k + 1), key),
                ) by {
                if key != id@ {
                    assert(lookup(patchers@, key) == lookup(p0, key));
                    assert(lookup(u.take(k + 1), key) == lookup(u.take(k as int), key));
                }
            }
        }
        k = k + 1;
    }
    assert(update.patchers@.take(n as int) =~= update.patchers@);
    LangpatchConfig { auto_patch: update.auto_patch, channels, language_pack, patchers }
}

/// The channels the old config selected that the new one drops, in old
/// order — their patches are pulled.
pub open spec fn deselected_spec(old: Seq<String>, new: Seq<String>) -> Seq<Seq<char>>
    decreases old.len(),
{
    if old.len() == 0 {
        Seq::empty()
    } else {
        let prev = deselected_spec(old.drop_last(), new);
        if lists(new, old.last()@) {
            prev
        } else {
            prev.push(old.last()@)
        }
    }
}

pub fn deselected_channels(old: &Vec<String>, new: &Vec<String>) -> (r: Vec<String>)
    ensures
        r@.map_values(|s: String| s@) == deselected_spec(old@, new@),
{
    let mut r: Vec<String> = Vec::new();
    let mut i: usize = 0;
    while i < old.len()
        invariant
            i <= old@.len(),
            r@.map_values(|s: String| s@) == deselected_spec(old@.take(i as int), new@),
        decreases old@.len() - i,
    {
        proof {
            assert(old@.take(i + 1).drop_last() =~= old@.take(i as int));
            assert(old@.take(i + 1).last() == old@[i as int]);
        }
        if !crate::shell::list_contains(new, old[i].as_str()) {
            let ghost before = r@;
            r.push(old[i].clone());
            assert(r@.map_values(|s: String| s@) =~= before.map_values(|s: String| s@).push(old@[i as int]@));
        }
        i = i + 1;
    }
    assert(old@.take(old@.len() as int) =~= old@);
    r
}

// ── Language-pack URLs ──────────────────────────────────────────────────────

/// The `github.com/u/r/blob/branch/file` form rewritten to
/// `raw.githubusercontent.com/u/r/branch/file` (first `/blob/` dropped);
/// anything else unchanged.
pub open spec fn github_raw_spec(url: Seq<char>) -> Seq<char> {
    let host = "https://github.com/"@;
    if crate::text::has_prefix(url, host) {
        let rest = url.skip(host.len() as int);
        match crate::text::find_seq_spec(rest, "/blob/"@) {
            Some(i) => "https://raw.githubusercontent.com/"@ + rest.take(i) + seq!['/'] + rest.skip(i + 6),
            None => url,
        }
    } else {
        url
    }
}

/// Users paste the browser URL of a pack; fetch its raw form.
pub fn rewrite_github_url(url: &str) -> (r: String)
    ensures
        r@ == github_raw_spec(url@),
{
    let host = "https://github.com/";
    let blob = "/blob/";
    proof {
        reveal_strlit("https://github.com/");
        reveal_strlit("/blob/");
    }
    match crate::text::strip_prefix_str(url, host) {
        Some(rest) => {
            let rv = crate::text::chars_of(rest.as_str());
            let bv = crate::text::chars_of(blob);
            match crate::text::find_seq_from(&rv, 0, &bv) {
                Some(i) => {
                    assert(rv@.skip(0) =~= rv@);
                    assert(crate::text::is_first_at(rv@, bv@, i as int));
                    assert(bv@.len() == 6);
                    let rl = rv.len();
                    assert(i + 6 <= rl);
                    let mut out = "https://raw.githubusercontent.com/".to_owned();
                    crate::text::push_range(&mut out, &rv, 0, i);
                    out.push('/');
                    crate::text::push_range(&mut out, &rv, i + 6, rv.len());
                    assert(rv@.subrange(0, i as int) =~= rv@.take(i as int));
                    assert(rv@.subrange(i + 6, rv@.len() as int) =~= rv@.skip(i + 6));
                    out
                },
                None => {
                    assert(rv@.skip(0) =~= rv@);
                    url.to_owned()
                },
            }
        },
        None => url.to_owned(),
    }
}

// ── Notices ─────────────────────────────────────────────────────────────────

pub open spec fn langpatch_source() -> Seq<char> {
    "langpatch"@
}

/// "Text patch paused — <Channel>": a foreign file stopped automatic
/// patching.
pub fn paused_notice(channel_key: &str) -> (n: Notification)
    ensures
        n.level == NotifLevel::Warning,
        n.title@ == "Text patch paused — "@ + display_channel_spec(channel_key@),
        n.body matches Some(b) && b@
            == "Another tool (or a manual edit) changed global.ini since the last patch. Automatic patching is paused for this install; use 'Take over' on the Text Patching page to overwrite it."@,
        n.action matches Some(a) && a.label@ == "Open Text Patching"@ && a.href@ == "/langpatch"@,
        n.source matches Some(s) && s@ == langpatch_source(),
{
    let title = concat("Text patch paused — ", display_channel(channel_key).as_str());
    Notification::warning(title.as_str()).with_body(
        "Another tool (or a manual edit) changed global.ini since the last patch. Automatic patching is paused for this install; use 'Take over' on the Text Patching page to overwrite it.",
    ).with_action("Open Text Patching", "/langpatch").with_source("langpatch")
}

/// "Text patch queued": the game runs; the patch applies when it exits.
pub fn queued_notice() -> (n: Notification)
    ensures
        n.level == NotifLevel::Info,
        n.title@ == "Text patch queued"@,
        n.body matches Some(b) && b@ == "Star Citizen is running; the patch applies when it exits."@,
        n.action is None,
        n.source matches Some(s) && s@ == langpatch_source(),
{
    Notification::info("Text patch queued").with_body(
        "Star Citizen is running; the patch applies when it exits.",
    ).with_source("langpatch")
}

/// "Text patch applied — <Channel>", body "<version> enriched.".
pub fn applied_notice(channel_key: &str, version: &str) -> (n: Notification)
    ensures
        n.level == NotifLevel::Success,
        n.title@ == "Text patch applied — "@ + display_channel_spec(channel_key@),
        n.body matches Some(b) && b@ == version@ + " enriched."@,
        n.action is None,
        n.source matches Some(s) && s@ == langpatch_source(),
{
    let title = concat("Text patch applied — ", display_channel(channel_key).as_str());
    let body = concat(version, " enriched.");
    Notification::success(title.as_str()).with_body(body.as_str()).with_source("langpatch")
}

/// "Stale text patch removed — <Channel>": re-patching failed with
/// `error`, so the old override was removed.
pub fn stale_removed_notice(channel_key: &str, version: &str, error: &str) -> (n: Notification)
    ensures
        n.level == NotifLevel::Warning,
        n.title@ == "Stale text patch removed — "@ + display_channel_spec(channel_key@),
        n.body matches Some(b) && b@ == "Re-patching for "@ + version@ + " failed ("@ + error@
            + "); the old override was removed so the game shows vanilla text instead of outdated strings."@,
        n.action is None,
        n.source matches Some(s) && s@ == langpatch_source(),
{
    let title = concat("Stale text patch removed — ", display_channel(channel_key).as_str());
    let b1 = concat("Re-patching for ", version);
    let b2 = concat(b1.as_str(), " failed (");
    let b3 = concat(b2.as_str(), error);
    let body = concat(
        b3.as_str(),
        "); the old override was removed so the game shows vanilla text instead of outdated strings.",
    );
    Notification::warning(title.as_str()).with_body(body.as_str()).with_source("langpatch")
}

/// "Text patch failed — <Channel>" with the error as body.
pub fn failed_notice(channel_key: &str, error: &str) -> (n: Notification)
    ensures
        n.level == NotifLevel::Warning,
        n.title@ == "Text patch failed — "@ + display_channel_spec(channel_key@),
        n.body matches Some(b) && b@ == error@,
        n.action is None,
        n.source matches Some(s) && s@ == langpatch_source(),
{
    let title = concat("Text patch failed — ", display_channel(channel_key).as_str());
    Notification::warning(title.as_str()).with_body(error).with_source("langpatch")
}

} // verus!
