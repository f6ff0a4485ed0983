use starlume::watch::{
    flatten, platform_for, Channel, InstallEvent, InstallInfo, Installation, Observation, P4kSig,
    WatchCore,
};

fn info(channel: &str, build_id: &str, version: &str) -> InstallInfo {
    InstallInfo {
        channel: channel.into(),
        platform: "prod".into(),
        directory: format!("C:\\SC\\{channel}"),
        version: version.into(),
        build_id: build_id.into(),
    }
}

fn obs(channel: &str, build_id: &str, version: &str, sig: u64) -> Observation {
    Observation {
        info: info(channel, build_id, version),
        sig: Some(P4kSig {
            len: sig,
            modified: None,
        }),
    }
}

const SETTLE: u64 = 60_000;

fn secs(s: u64) -> u64 {
    s * 1000
}

fn seeded(now: u64) -> WatchCore {
    let mut core = WatchCore::new(SETTLE);
    core.seed(now, vec![obs("Live", "b1", "4.8.0-live.100", 10)]);
    core
}

#[test]
fn steady_state_emits_nothing() {
    let t0 = 1_000_000;
    let mut core = seeded(t0);
    for i in 1..10 {
        let events = core.observe(
            t0 + secs(30 * i),
            vec![obs("Live", "b1", "4.8.0-live.100", 10)],
        );
        assert!(events.is_empty());
    }
}

#[test]
fn build_change_emits_only_after_settle() {
    let t0 = 1_000_000;
    let mut core = seeded(t0);
    let events = core.observe(t0 + secs(30), vec![obs("Live", "b2", "4.8.1-live.200", 20)]);
    assert!(events.is_empty());
    let events = core.observe(t0 + secs(60), vec![obs("Live", "b2", "4.8.1-live.200", 20)]);
    assert!(events.is_empty());
    let events = core.observe(t0 + secs(90), vec![obs("Live", "b2", "4.8.1-live.200", 20)]);
    assert_eq!(events.len(), 1);
    assert!(
        matches!(&events[0], InstallEvent::Changed(i) if i.build_id == "b2"),
        "expected Changed(b2), got {events:?}"
    );
    let events = core.observe(t0 + secs(120), vec![obs("Live", "b2", "4.8.1-live.200", 20)]);
    assert!(events.is_empty());
}

#[test]
fn p4k_churn_defers_emission() {
    let t0 = 1_000_000;
    let mut core = seeded(t0);
    for i in 1..=5u64 {
        let events = core.observe(
            t0 + secs(30 * i),
            vec![obs("Live", "b2", "4.8.1-live.200", 20 + i)],
        );
        assert!(events.is_empty(), "poll {i} emitted during churn");
    }
    let events = core.observe(t0 + secs(180), vec![obs("Live", "b2", "4.8.1-live.200", 25)]);
    assert!(events.is_empty());
    let events = core.observe(t0 + secs(210), vec![obs("Live", "b2", "4.8.1-live.200", 25)]);
    assert_eq!(events.len(), 1);
}

#[test]
fn rollback_to_emitted_key_clears_pending() {
    let t0 = 1_000_000;
    let mut core = seeded(t0);
    core.observe(t0 + secs(30), vec![obs("Live", "b2", "4.8.1-live.200", 20)]);
    core.observe(t0 + secs(60), vec![obs("Live", "b1", "4.8.0-live.100", 10)]);
    let events = core.observe(t0 + secs(600), vec![obs("Live", "b1", "4.8.0-live.100", 10)]);
    assert!(events.is_empty());
}

#[test]
fn new_channel_emits_after_settle() {
    let t0 = 1_000_000;
    let mut core = seeded(t0);
    core.observe(
        t0 + secs(30),
        vec![
            obs("Live", "b1", "4.8.0-live.100", 10),
            obs("Ptu", "p1", "4.9.0-ptu.300", 5),
        ],
    );
    let events = core.observe(
        t0 + secs(90),
        vec![
            obs("Live", "b1", "4.8.0-live.100", 10),
            obs("Ptu", "p1", "4.9.0-ptu.300", 5),
        ],
    );
    assert_eq!(events.len(), 1);
    assert!(matches!(&events[0], InstallEvent::Changed(i) if i.channel == "Ptu"));
}

#[test]
fn removed_after_two_missing_polls() {
    let t0 = 1_000_000;
    let mut core = seeded(t0);
    let events = core.observe(t0 + secs(30), vec![]);
    assert!(events.is_empty(), "one missing poll must not remove");
    let events = core.observe(t0 + secs(60), vec![]);
    assert_eq!(events.len(), 1);
    assert!(matches!(&events[0], InstallEvent::Removed { channel } if channel == "Live"));
    core.observe(t0 + secs(90), vec![obs("Live", "b1", "4.8.0-live.100", 10)]);
    let events = core.observe(t0 + secs(150), vec![obs("Live", "b1", "4.8.0-live.100", 10)]);
    assert_eq!(events.len(), 1);
    assert!(matches!(&events[0], InstallEvent::Changed(_)));
}

#[test]
fn none_build_id_falls_back_to_version_label() {
    let t0 = 1_000_000;
    let mut core = WatchCore::new(SETTLE);
    core.seed(t0, vec![obs("Live", "None", "4.8.3-live.100", 10)]);
    core.observe(t0 + secs(30), vec![obs("Live", "None", "4.8.4-live.200", 20)]);
    let events = core.observe(t0 + secs(90), vec![obs("Live", "None", "4.8.4-live.200", 20)]);
    assert_eq!(events.len(), 1);
}

#[test]
fn staleness_key_prefers_build_id() {
    assert_eq!(info("Live", "b9", "4.8.0").staleness_key(), "b9");
    assert_eq!(info("Live", "", "4.8.0").staleness_key(), "4.8.0");
    assert_eq!(info("Live", "None", "4.8.0").staleness_key(), "4.8.0");
}

#[test]
fn flatten_prefers_launcher_store_values() {
    assert_eq!(platform_for(Channel::Hotfix), "prod");
    assert_eq!(platform_for(Channel::TechPreview), "ptu");
    let install = Installation {
        channel: Channel::Eptu,
        platform_id: None,
        root: "C:\\Games\\StarCitizen\\EPTU".to_string(),
        launcher_version_label: None,
        manifest_version: "4.7.2".to_string(),
        build_id: "11715810".to_string(),
    };
    let info = flatten(&install);
    assert_eq!(info.channel, "Eptu");
    assert_eq!(info.platform, "ptu");
    assert_eq!(info.version, "4.7.2");
    assert_eq!(info.directory, "C:\\Games\\StarCitizen\\EPTU");
    let signed = Installation {
        channel: Channel::Live,
        platform_id: Some("custom".to_string()),
        root: "D:\\SC\\LIVE".to_string(),
        launcher_version_label: Some("4.7.2-live.11715810".to_string()),
        manifest_version: "4.7.2".to_string(),
        build_id: "11715810".to_string(),
    };
    let info = flatten(&signed);
    assert_eq!(info.channel, "Live");
    assert_eq!(info.platform, "custom");
    assert_eq!(info.version, "4.7.2-live.11715810");
    assert_eq!(info.build_id, "11715810");
}
