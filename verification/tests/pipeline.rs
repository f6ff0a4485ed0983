use starlume::catalog::{changelist, default_install, InstallRef};
use starlume::compose::compose_override;
use starlume::derive::PatcherOps;
use starlume::hashing::sha256_bytes;
use starlume::ops::{KeyRename, LangpatchConfig, OpSet, PatchOp, PatcherConfig};
use starlume::reconcile::{
    after_failed_apply, applied_state, applied_notice, config_from_update, deselected_channels,
    failed_notice, next_step, paused_notice, queued_notice, reconcile_targets,
    rewrite_github_url, stale_override_present, stale_removed_notice, Outcome, Step,
};
use starlume::server::{authorize_url, validate_group_name, Config};
use starlume::shell::{NotifLevel, NotifLog, Notification};
use starlume::state::{Fingerprint, InstallPatchState, PatchPlan};
use starlume::strmap::StrMap;
use starlume::text::to_ascii_lowercase;
use starlume::patchers::component_grades::ComponentGrades;
use starlume::views::{
    display_channel, install_state_label, LangpatchConfigUpdate, LangpatchInstallView, OptionKindView,
    PatcherConfigUpdate, PatcherInfoView,
};

fn lines_of(src: &str) -> Vec<String> {
    src.lines().map(str::to_owned).collect()
}

fn ops_of(id: &str, priority: u32, renames: Vec<KeyRename>, patches: Vec<(&str, PatchOp)>) -> PatcherOps {
    PatcherOps {
        id: id.to_string(),
        priority,
        ops: OpSet {
            renames,
            patches: patches.into_iter().map(|(k, op)| (k.to_string(), op)).collect(),
        },
    }
}

fn body_of(bytes: &[u8]) -> String {
    assert_eq!(&bytes[..3], b"\xEF\xBB\xBF");
    String::from_utf8(bytes[3..].to_vec()).unwrap()
}

#[test]
fn pipeline_overlays_renames_patches_then_overrides() {
    let base = lines_of("a=1\nold,P=Value\nc=3\n# note");
    let pack = lines_of("a=eins\nnew_key=neu");
    let ops = vec![
        ops_of(
            "k",
            0,
            vec![KeyRename { from: "old".into(), to: "fresh".into() }],
            vec![("fresh", PatchOp::Suffix(" [x]".into()))],
        ),
        ops_of(
            "e",
            100,
            Vec::new(),
            vec![
                ("a", PatchOp::Prefix("<".into())),
                ("a", PatchOp::Suffix(">".into())),
                ("c", PatchOp::Replace("three".into())),
            ],
        ),
    ];
    let mut overrides = StrMap::new();
    overrides.insert("c", "mine".to_string());
    overrides.insert("zz", "appended".to_string());
    let bytes = compose_override(base, Some(&pack), &ops, &overrides);
    assert_eq!(
        body_of(&bytes),
        "a=<eins>\nfresh,P=Value [x]\nc=mine\n# note\nnew_key=neu\nzz=appended\n"
    );
}

#[test]
fn pipeline_without_pack_or_ops_only_encodes() {
    let bytes = compose_override(lines_of("x=1\ny=2"), None, &Vec::new(), &StrMap::new());
    assert_eq!(body_of(&bytes), "x=1\ny=2\n");
}

#[test]
fn pipeline_skips_placeholders_but_overrides_still_win() {
    let base = lines_of("p=<= PLACEHOLDER =>\nq=Q");
    let ops = vec![ops_of(
        "e",
        100,
        Vec::new(),
        vec![("p", PatchOp::Suffix("!".into())), ("q", PatchOp::Suffix("!".into()))],
    )];
    let mut overrides = StrMap::new();
    overrides.insert("p", "set".to_string());
    let bytes = compose_override(base, None, &ops, &overrides);
    assert_eq!(body_of(&bytes), "p=set\nq=Q!\n");
}

fn fingerprint(key: &str) -> Fingerprint {
    Fingerprint {
        staleness_key: key.into(),
        config_hash: "cfg".into(),
        pack_hash: Some("pack".into()),
        owned_salt: None,
    }
}

#[test]
fn next_step_decisions() {
    assert_eq!(next_step(PatchPlan::UpToDate, false, false), Step::Stop(Outcome::UpToDate));
    assert_eq!(next_step(PatchPlan::UpToDate, true, false), Step::Apply);
    assert_eq!(next_step(PatchPlan::Foreign, false, false), Step::Stop(Outcome::ForeignPaused));
    assert_eq!(next_step(PatchPlan::Foreign, true, false), Step::Apply);
    assert_eq!(next_step(PatchPlan::Apply, false, true), Step::Stop(Outcome::Deferred));
    assert_eq!(next_step(PatchPlan::Foreign, true, true), Step::Stop(Outcome::Deferred));
    assert_eq!(next_step(PatchPlan::Apply, false, false), Step::Apply);
}

#[test]
fn stale_override_and_fallback() {
    let entry = applied_state(&fingerprint("b1"), "sha", "2026-01-01T00:00:00Z");
    assert_eq!(entry.output_sha256, "sha");
    assert_eq!(entry.pack_hash.as_deref(), Some("pack"));
    assert!(stale_override_present(Some("sha"), Some(&entry), &fingerprint("b2")));
    assert!(!stale_override_present(Some("sha"), Some(&entry), &fingerprint("b1")));
    assert!(!stale_override_present(None, Some(&entry), &fingerprint("b2")));
    assert!(!stale_override_present(Some("sha"), None, &fingerprint("b2")));
    assert_eq!(after_failed_apply(true), Some(Outcome::RemovedStale));
    assert_eq!(after_failed_apply(false), None);
    let _: InstallPatchState = entry;
}

fn install(channel: &str, version: &str) -> InstallRef {
    InstallRef {
        channel_key: channel.into(),
        p4k_path: format!("C:/SC/{channel}/Data.p4k"),
        build_id: "b".into(),
        version: version.into(),
    }
}

#[test]
fn reconcile_targets_follow_selection() {
    let installs = vec![install("live", "4.8.0-live.5"), install("ptu", "4.9.0-ptu.9")];
    let config = LangpatchConfig::new();
    assert_eq!(reconcile_targets(true, &config, &installs), vec![0]);
    assert!(reconcile_targets(false, &config, &installs).is_empty());
    let mut off = LangpatchConfig::new();
    off.auto_patch = false;
    assert!(reconcile_targets(true, &off, &installs).is_empty());
}

#[test]
fn config_update_lowercases_and_drops_blank_pack() {
    let mut patchers = StrMap::new();
    let mut options = StrMap::new();
    options.insert("display", "plain".to_string());
    patchers.insert("illegal_goods", PatcherConfigUpdate { enabled: Some(false), options });
    let update = LangpatchConfigUpdate {
        auto_patch: false,
        channels: vec!["LIVE".into(), "Ptu".into()],
        language_pack: Some("   ".into()),
        patchers,
    };
    let config = config_from_update(&update);
    assert!(!config.auto_patch);
    assert_eq!(config.channels, vec!["live".to_string(), "ptu".to_string()]);
    assert!(config.language_pack.is_none());
    let pc: &PatcherConfig = config.patchers.get("illegal_goods").unwrap();
    assert_eq!(pc.enabled, Some(false));
    assert_eq!(pc.get_str("display", "color_coded"), "plain");

    let keep = LangpatchConfigUpdate {
        auto_patch: true,
        channels: Vec::new(),
        language_pack: Some("https://example.com/pack.ini".into()),
        patchers: StrMap::new(),
    };
    assert_eq!(
        config_from_update(&keep).language_pack.as_deref(),
        Some("https://example.com/pack.ini")
    );
}

#[test]
fn deselected_channels_in_old_order() {
    let old = vec!["live".to_string(), "ptu".to_string(), "eptu".to_string()];
    let new = vec!["ptu".to_string()];
    assert_eq!(deselected_channels(&old, &new), vec!["live".to_string(), "eptu".to_string()]);
    assert!(deselected_channels(&new, &old).is_empty());
}

#[test]
fn github_blob_urls_become_raw() {
    assert_eq!(
        rewrite_github_url("https://github.com/u/r/blob/main/global.ini"),
        "https://raw.githubusercontent.com/u/r/main/global.ini"
    );
    assert_eq!(
        rewrite_github_url("https://github.com/u/r/blob/x/blob/y.ini"),
        "https://raw.githubusercontent.com/u/r/x/blob/y.ini"
    );
    assert_eq!(rewrite_github_url("https://github.com/u/r/raw/main/a"), "https://github.com/u/r/raw/main/a");
    assert_eq!(rewrite_github_url("C:/packs/de.ini"), "C:/packs/de.ini");
}

#[test]
fn langpatch_notices() {
    let n = paused_notice("live");
    assert_eq!(n.level, NotifLevel::Warning);
    assert_eq!(n.title, "Text patch paused — Live");
    assert_eq!(n.action.as_ref().unwrap().href, "/langpatch");
    assert_eq!(n.source.as_deref(), Some("langpatch"));
    let q = queued_notice();
    assert_eq!(q.level, NotifLevel::Info);
    assert_eq!(q.title, "Text patch queued");
    let a = applied_notice("ptu", "4.9.0-ptu.1");
    assert_eq!(a.title, "Text patch applied — Ptu");
    assert_eq!(a.body.as_deref(), Some("4.9.0-ptu.1 enriched."));
    let s = stale_removed_notice("live", "4.8.1", "boom");
    assert_eq!(s.title, "Stale text patch removed — Live");
    assert!(s.body.unwrap().starts_with("Re-patching for 4.8.1 failed (boom); the old override"));
    let f = failed_notice("live", "disk full");
    assert_eq!(f.title, "Text patch failed — Live");
    assert_eq!(f.body.as_deref(), Some("disk full"));
}

#[test]
fn notification_log_is_bounded_and_newest_first() {
    let mut log = NotifLog::new();
    for i in 0..105u64 {
        let r = log.push(Notification::info(&format!("n{i}")), 1000 + i);
        assert_eq!(r.id, i as u32);
        assert_eq!(r.ts_ms, 1000 + i);
    }
    let recent = log.recent();
    assert_eq!(recent.len(), 100);
    assert_eq!(recent[0].id, 104);
    assert_eq!(recent[0].payload.title, "n104");
    assert_eq!(recent[99].id, 5);
}

#[test]
fn sha256_of_known_vector() {
    assert_eq!(
        sha256_bytes(b"abc"),
        "ba7816bf8f01cfea414140de5dae2223b00361a396177a9cb410ff61f20015ad"
    );
    assert_eq!(
        sha256_bytes(b""),
        "e3b0c44298fc1c149afbf4c8996fb92427ae41e4649b934ca495991b7852b855"
    );
}

#[test]
fn authorize_url_form_encodes_redirect() {
    assert_eq!(
        authorize_url("123", "https://x.io/auth/discord/callback", "st"),
        "https://discord.com/oauth2/authorize?response_type=code&client_id=123&scope=identify&state=st&redirect_uri=https%3A%2F%2Fx.io%2Fauth%2Fdiscord%2Fcallback"
    );
    let cfg = Config {
        public_url: "https://x.io//".into(),
        discord_client_id: "id".into(),
        discord_client_secret: "s".into(),
    };
    assert_eq!(cfg.redirect_uri(), "https://x.io/auth/discord/callback");
}

#[test]
fn group_names_are_trimmed_and_bounded() {
    assert_eq!(validate_group_name("  Crew  ").as_deref(), Some("Crew"));
    assert_eq!(validate_group_name("   "), None);
    assert_eq!(validate_group_name(&"x".repeat(65)), None);
    assert_eq!(validate_group_name(&"é".repeat(32)).as_deref(), Some("é".repeat(32).as_str()));
    assert_eq!(validate_group_name(&"é".repeat(33)), None);
}

#[test]
fn channel_display_and_versions() {
    assert_eq!(display_channel("live"), "Live");
    assert_eq!(display_channel("techpreview"), "Techpreview");
    assert_eq!(display_channel(""), "");
    assert_eq!(changelist("4.8.3-live.12122953"), 12122953);
    assert_eq!(changelist("4.8.3-live"), 0);
    let installs = vec![install("ptu", "4.9.0-ptu.300"), install("live", "4.8.0-live.100")];
    assert_eq!(default_install(&installs), Some(1));
    assert_eq!(default_install(&Vec::new()), None);
    assert_eq!(install_state_label(PatchPlan::Apply, false, false), "unpatched");
    assert_eq!(install_state_label(PatchPlan::Apply, true, false), "stale");
    assert_eq!(install_state_label(PatchPlan::Foreign, true, true), "foreign");
}

#[test]
fn ascii_lowercase_leaves_other_chars() {
    assert_eq!(to_ascii_lowercase("LIVE-Ptu_É"), "live-ptu_É");
}

#[test]
fn install_rows_show_plan_state_and_selection() {
    let config = LangpatchConfig::new();
    let desired = Fingerprint::new("b1", &config, None, None);
    let mut known = StrMap::new();
    let row = LangpatchInstallView::build("live", "4.7.2", &config, None, &desired, None, &known);
    assert_eq!(row.channel, "Live");
    assert_eq!(row.state, "unpatched");
    assert_eq!(row.selected, config.channels.contains(&"live".to_string()));
    assert!(row.patched_at.is_none());

    // An override on disk that we never wrote: foreign.
    let row = LangpatchInstallView::build("ptu", "4.8", &config, None, &desired, Some("abc"), &known);
    assert_eq!(row.channel, "Ptu");
    assert_eq!(row.state, "foreign");
    assert!(!row.selected);

    // Our own file, current fingerprint: up to date.
    known.insert("abc", ());
    let entry = InstallPatchState {
        staleness_key: desired.staleness_key.clone(),
        config_hash: desired.config_hash.clone(),
        pack_hash: None,
        owned_salt: None,
        output_sha256: "abc".to_string(),
        patched_at: "2026-01-01T00:00:00Z".to_string(),
    };
    let row = LangpatchInstallView::build("live", "4.7.2", &config, Some(&entry), &desired, Some("abc"), &known);
    assert_eq!(row.state, "up-to-date");
    assert_eq!(row.patched_at.as_deref(), Some("2026-01-01T00:00:00Z"));
    // Our own file under an older build: stale.
    let newer = Fingerprint::new("b2", &config, None, None);
    let row = LangpatchInstallView::build("live", "4.7.3", &config, Some(&entry), &newer, Some("abc"), &known);
    assert_eq!(row.state, "stale");
}

#[test]
fn patcher_rows_list_options_and_values() {
    let mut config = LangpatchConfig::new();
    let mut options = StrMap::new();
    options.insert("format", "short_prefix".to_string());
    config.patchers.insert(
        "component_grades",
        PatcherConfig { enabled: Some(false), options },
    );
    let view = PatcherInfoView::of(&ComponentGrades, &config);
    assert_eq!(view.id, "component_grades");
    assert_eq!(view.name, "Component Grades");
    assert_eq!(
        view.description,
        "Label ship components with class and grade (e.g. 'Bracer Military C')"
    );
    assert_eq!(view.options[0].label, "Name format");
    assert!(!view.enabled);
    assert!(view.uses_replace_ops);
    assert_eq!(view.options.len(), 1);
    assert_eq!(view.options[0].default, "name_class_grade");
    match &view.options[0].kind {
        OptionKindView::Choice { choices } => {
            let values: Vec<&str> = choices.iter().map(|c| c.value.as_str()).collect();
            assert_eq!(values, vec!["name_class_grade", "compact_prefix", "short_prefix"]);
        }
        OptionKindView::Bool => panic!("expected a choice option"),
    }
    assert_eq!(view.values.get("format").map(|s| s.as_str()), Some("short_prefix"));
    let default_view = PatcherInfoView::of(&ComponentGrades, &LangpatchConfig::new());
    assert!(default_view.enabled);
    assert!(default_view.values.is_empty());
}
