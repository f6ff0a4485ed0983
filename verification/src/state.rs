//! Patch state — the fingerprint that turns "patched" from an action into a
//! maintained state.
//!
//! Per selected install we persist what we last wrote: the build's
//! staleness key, the config hash, the language-pack hash, the
//! owned-blueprint salt, and the sha256 of the file we wrote. Any mismatch
//! between fingerprint and reality is a reconciliation plan:
//!
//! - fingerprint matches + our file on disk → [`PatchPlan::UpToDate`]
//! - anything stale / missing → [`PatchPlan::Apply`]
//! - a file we didn't write → [`PatchPlan::Foreign`] — warn + pause (the
//!   user gets a "take over" action instead of a last-writer-wins war).

use vstd::prelude::*;

use crate::hashing::{patchers_hash, patchers_json, stable_hash_of};
use crate::merge::{join_path, path_join};
use crate::ops::LangpatchConfig;
use crate::strmap::{StrMap, lookup};
use crate::text::str_eq;

verus! {

/// A set of strings, in order.
pub type StrSet = StrMap<()>;

/// What the override on disk *should* correspond to.
#[derive(Debug, Clone, PartialEq, Eq)]
pub struct Fingerprint {
    /// The install's build staleness key (`InstallInfo::staleness_key`).
    pub staleness_key: String,
    /// Hash over the patcher enable/options map — the part of the config
    /// that changes patch output.
    pub config_hash: String,
    /// Content hash of the language pack in use, `None` when none.
    pub pack_hash: Option<String>,
    /// The owned-blueprint salt — `None` when no enabled patcher renders
    /// ownership.
    pub owned_salt: Option<String>,
}

impl Fingerprint {
    /// The fingerprint for an install's staleness key under `config`, with
    /// the pack hash and owned-blueprint salt in use.
    pub fn new(
        staleness_key: &str,
        config: &LangpatchConfig,
        pack_hash: Option<String>,
        owned_salt: Option<String>,
    ) -> (r: Fingerprint)
        requires
            config.wf(),
        ensures
            r.staleness_key@ == staleness_key@,
            r.config_hash@ == stable_hash_of(patchers_json(config.patchers@)),
            r.pack_hash == pack_hash,
            r.owned_salt == owned_salt,
    {
        Fingerprint {
            staleness_key: staleness_key.to_owned(),
            config_hash: patchers_hash(&config.patchers),
            pack_hash,
            owned_salt,
        }
    }
}

/// What we last applied to one install.
#[derive(Debug, Clone, PartialEq, Eq)]
pub struct InstallPatchState {
    pub staleness_key: String,
    pub config_hash: String,
    pub pack_hash: Option<String>,
    /// Owned-blueprint salt at write time (`None` in state files written
    /// before ownership rendering existed).
    pub owned_salt: Option<String>,
    /// sha256 of the `global.ini` override we wrote — the foreign-writer
    /// detector.
    pub output_sha256: String,
    /// RFC 3339 timestamp of the write.
    pub patched_at: String,
}

/// The text of an optional string.
pub open spec fn opt_text(o: Option<String>) -> Option<Seq<char>> {
    match o {
        Some(s) => Some(s@),
        None => None,
    }
}

/// A recorded state was written for exactly the desired fingerprint.
pub open spec fn state_matches(s: InstallPatchState, desired: Fingerprint) -> bool {
    &&& s.staleness_key@ == desired.staleness_key@
    &&& s.config_hash@ == desired.config_hash@
    &&& opt_text(s.pack_hash) == opt_text(desired.pack_hash)
    &&& opt_text(s.owned_salt) == opt_text(desired.owned_salt)
}

/// Whether two optional strings hold the same text.
pub fn opt_str_eq(a: &Option<String>, b: &Option<String>) -> (r: bool)
    ensures
        r == (opt_text(*a) == opt_text(*b)),
{
    match (a, b) {
        (Some(x), Some(y)) => str_eq(x.as_str(), y.as_str()),
        (None, None) => true,
        _ => false,
    }
}

impl InstallPatchState {
    pub fn matches(&self, desired: &Fingerprint) -> (r: bool)
        ensures
            r == state_matches(*self, *desired),
    {
        str_eq(self.staleness_key.as_str(), desired.staleness_key.as_str()) && str_eq(
            self.config_hash.as_str(),
            desired.config_hash.as_str(),
        ) && opt_str_eq(&self.pack_hash, &desired.pack_hash) && opt_str_eq(
            &self.owned_salt,
            &desired.owned_salt,
        )
    }
}

/// The durable state file (`langpatch/state.json`): channel key → applied
/// state.
pub struct PatchStateFile {
    pub installs: StrMap<InstallPatchState>,
}

/// The recorded output hashes of a state map, as a set.
pub open spec fn outputs_of(installs: Seq<(Seq<char>, InstallPatchState)>) -> Set<Seq<char>> {
    Set::new(|h: Seq<char>| exists|i: int| 0 <= i < installs.len() && (#[trigger] installs[i]).1.output_sha256@ == h)
}

/// The keys of a string set.
pub open spec fn set_of(s: Seq<(Seq<char>, ())>) -> Set<Seq<char>> {
    Set::new(|h: Seq<char>| lookup(s, h) is Some)
}

impl PatchStateFile {
    /// No install recorded.
    pub fn new() -> (r: PatchStateFile)
        ensures
            r.installs.wf(),
            r.installs@.len() == 0,
    {
        PatchStateFile { installs: StrMap::new() }
    }

    /// `{data_dir}/state.json`.
    pub fn path(data_dir: &str) -> (r: String)
        ensures
            r@ == path_join(data_dir@, "state.json"@),
    {
        join_path(data_dir, "state.json")
    }

    /// Every recorded output hash across **all** channels — the "is this
    /// file ours?" set for [`plan_for`]. Cross-channel so a folder rename
    /// (`hotfix`→`live`) that moves our file to a different channel key isn't
    /// mistaken for a foreign writer.
    pub fn known_outputs(&self) -> (r: StrSet)
        requires
            self.installs.wf(),
        ensures
            r.wf(),
            set_of(r@) == outputs_of(self.installs@),
    {
        let mut out: StrSet = StrMap::new();
        let mut i: usize = 0;
        while i < self.installs.len()
            invariant
                self.installs.wf(),
                out.wf(),
                i <= self.installs@.len(),
                set_of(out@) == outputs_of(self.installs@.take(i as int)),
            decreases self.installs@.len() - i,
        {
            let ghost prev = set_of(out@);
            let h = self.installs.value_at(i).output_sha256.as_str();
            out.insert(h, ());
            proof {
                let e = self.installs@;
                assert(set_of(out@) =~= prev.insert(h@));
                assert forall|x: Seq<char>| outputs_of(e.take(i + 1)).contains(x) == prev.insert(
                    h@,
                ).contains(x) by {
                    if outputs_of(e.take(i + 1)).contains(x) {
                        let j = choose|j: int|
                            0 <= j < e.take(i + 1).len() && (#[trigger] e.take(i + 1)[j]).1.output_sha256@ == x;
                        if j < i {
                            assert(e.take(i as int)[j] == e.take(i + 1)[j]);
                        }
                    }
                    if prev.contains(x) {
                        let j = choose|j: int|
                            0 <= j < e.take(i as int).len() && (#[trigger] e.take(i as int)[j]).1.output_sha256@
                                == x;
                        assert(e.take(i as int)[j] == e.take(i + 1)[j]);
                    }
                    if x == h@ {
                        assert(e.take(i + 1)[i as int] == e[i as int]);
                    }
                }
                assert(outputs_of(e.take(i + 1)) =~= prev.insert(h@));
            }
            i = i + 1;
        }
        assert(self.installs@.take(self.installs@.len() as int) =~= self.installs@);
        out
    }
}

/// The reconciliation decision for one install.
#[derive(Debug, Clone, Copy, PartialEq, Eq, Structural)]
pub enum PatchPlan {
    /// Fingerprint matches and the file on disk is the one we wrote.
    UpToDate,
    /// Needs (re-)applying: never patched, build/config/pack changed, or
    /// our file vanished.
    Apply,
    /// The override on disk isn't ours — someone else wrote it.
    Foreign,
}

/// The decision [`plan_for`] makes.
pub open spec fn plan_spec(
    state: Option<InstallPatchState>,
    desired: Fingerprint,
    disk_sha: Option<Seq<char>>,
    known: Set<Seq<char>>,
) -> PatchPlan {
    match disk_sha {
        None => PatchPlan::Apply,
        Some(d) => if !known.contains(d) {
            PatchPlan::Foreign
        } else {
            match state {
                Some(s) => if d == s.output_sha256@ && state_matches(s, desired) {
                    PatchPlan::UpToDate
                } else {
                    PatchPlan::Apply
                },
                None => PatchPlan::Apply,
            }
        },
    }
}

/// Decide what one install needs.
///
/// `disk_sha` is the sha256 of the override currently on disk (`None` when
/// no override file exists). `known_outputs` is every `output_sha256`
/// recorded across all channels — the "is this file ours?" set.
///
/// Foreign is decided by that set alone: a file whose hash we have never
/// written is someone else's; a file whose hash we *have* written is ours,
/// even under a different channel key or with a stale record here. "Ours
/// but not current" is a re-apply, never a pause.
pub fn plan_for(
    state: Option<&InstallPatchState>,
    desired: &Fingerprint,
    disk_sha: Option<&str>,
    known_outputs: &StrSet,
) -> (plan: PatchPlan)
    requires
        known_outputs.wf(),
    ensures
        plan == plan_spec(
            match state {
                Some(s) => Some(*s),
                None => None,
            },
            *desired,
            match disk_sha {
                Some(d) => Some(d@),
                None => None,
            },
            set_of(known_outputs@),
        ),
{
    let disk = match disk_sha {
        None => {
            return PatchPlan::Apply;
        },
        Some(d) => d,
    };
    if !known_outputs.contains_key(disk) {
        return PatchPlan::Foreign;
    }
    match state {
        Some(s) => {
            if str_eq(disk, s.output_sha256.as_str()) && s.matches(desired) {
                PatchPlan::UpToDate
            } else {
                PatchPlan::Apply
            }
        },
        None => PatchPlan::Apply,
    }
}

} // verus!

verus! {

/// Foreign is decided by the set of outputs we wrote alone: an override
/// whose hash we never wrote is someone else's; one we wrote (under any
/// channel, with a current or stale record) is never paused on — at worst
/// it is re-applied. No override at all is always (re-)applied.
pub proof fn lemma_foreign_iff_unknown(
    state: Option<InstallPatchState>,
    desired: Fingerprint,
    disk_sha: Seq<char>,
    known: Set<Seq<char>>,
)
    ensures
        (plan_spec(state, desired, Some(disk_sha), known) == PatchPlan::Foreign) <==> !known.contains(disk_sha),
        plan_spec(state, desired, None, known) == PatchPlan::Apply,
        plan_spec(state, desired, Some(disk_sha), known) == PatchPlan::UpToDate ==> (state matches Some(s)
            && s.output_sha256@ == disk_sha && state_matches(s, desired)),
{
}

} // verus!
