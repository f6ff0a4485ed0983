use starlume::state::{plan_for, Fingerprint, InstallPatchState, PatchPlan, StrSet};
use starlume::strmap::StrMap;

fn fp(build: &str) -> Fingerprint {
    Fingerprint {
        staleness_key: build.into(),
        config_hash: "cfg1".into(),
        pack_hash: None,
        owned_salt: None,
    }
}

fn applied(build: &str, sha: &str) -> InstallPatchState {
    InstallPatchState {
        staleness_key: build.into(),
        config_hash: "cfg1".into(),
        pack_hash: None,
        owned_salt: None,
        output_sha256: sha.into(),
        patched_at: "2026-07-04T00:00:00Z".into(),
    }
}

/// A known-outputs set from the given hashes.
fn known(shas: &[&str]) -> StrSet {
    let mut set = StrMap::new();
    for s in shas {
        set.insert(s, ());
    }
    set
}

#[test]
fn fresh_install_applies() {
    assert_eq!(
        plan_for(None, &fp("b1"), None, &known(&[])),
        PatchPlan::Apply
    );
}

#[test]
fn unknown_existing_file_is_foreign() {
    // A file on disk whose hash we've never written.
    assert_eq!(
        plan_for(None, &fp("b1"), Some("abc"), &known(&[])),
        PatchPlan::Foreign
    );
}

#[test]
fn matching_fingerprint_and_our_file_is_up_to_date() {
    let s = applied("b1", "sha");
    assert_eq!(
        plan_for(Some(&s), &fp("b1"), Some("sha"), &known(&["sha"])),
        PatchPlan::UpToDate
    );
}

#[test]
fn build_change_applies() {
    let s = applied("b1", "sha");
    assert_eq!(
        plan_for(Some(&s), &fp("b2"), Some("sha"), &known(&["sha"])),
        PatchPlan::Apply
    );
}

#[test]
fn config_change_applies() {
    let s = applied("b1", "sha");
    let mut desired = fp("b1");
    desired.config_hash = "cfg2".into();
    assert_eq!(
        plan_for(Some(&s), &desired, Some("sha"), &known(&["sha"])),
        PatchPlan::Apply
    );
}

#[test]
fn pack_change_applies() {
    let s = applied("b1", "sha");
    let mut desired = fp("b1");
    desired.pack_hash = Some("pack1".into());
    assert_eq!(
        plan_for(Some(&s), &desired, Some("sha"), &known(&["sha"])),
        PatchPlan::Apply
    );
}

#[test]
fn owned_salt_change_applies() {
    // The owned-blueprint set changed under a still-current build/config →
    // re-apply so the mission text re-renders ownership.
    let s = applied("b1", "sha");
    let mut desired = fp("b1");
    desired.owned_salt = Some("owned-v2".into());
    assert_eq!(
        plan_for(Some(&s), &desired, Some("sha"), &known(&["sha"])),
        PatchPlan::Apply
    );
}

#[test]
fn vanished_file_reapplies() {
    let s = applied("b1", "sha");
    assert_eq!(
        plan_for(Some(&s), &fp("b1"), None, &known(&["sha"])),
        PatchPlan::Apply
    );
}

#[test]
fn foreign_rewrite_pauses() {
    // Our record says "sha", but the disk holds "other" — a hash we never
    // wrote → foreign.
    let s = applied("b1", "sha");
    assert_eq!(
        plan_for(Some(&s), &fp("b1"), Some("other"), &known(&["sha"])),
        PatchPlan::Foreign
    );
}

#[test]
fn our_file_under_another_channel_reapplies_not_foreign() {
    // The `hotfix`→`live` folder-rename case: no record for THIS channel,
    // but the disk file's hash matches one we wrote under another channel
    // → ours → re-apply (re-record here), never a foreign pause.
    assert_eq!(
        plan_for(None, &fp("b1"), Some("hotfix_sha"), &known(&["hotfix_sha"])),
        PatchPlan::Apply
    );
}

#[test]
fn our_file_with_stale_channel_record_reapplies_not_foreign() {
    // This channel has a stale record (old build/hash), but the disk file
    // is one we wrote (matches another channel's output) → re-apply.
    let stale = applied("old-build", "old_sha");
    assert_eq!(
        plan_for(
            Some(&stale),
            &fp("b1"),
            Some("hotfix_sha"),
            &known(&["old_sha", "hotfix_sha"]),
        ),
        PatchPlan::Apply
    );
}
