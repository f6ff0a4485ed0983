use starlume::accounts::{DossierService, OwnedBlueprints};
use starlume::shell::AppSettings;
use starlume::strmap::StrMap;

#[test]
fn defaults_are_online_but_grpc_off() {
    let settings = AppSettings::default();
    assert!(settings.require_online().is_ok());
    assert!(settings.require_grpc("blueprints").is_err());
}

#[test]
fn grpc_needs_master_and_feature() {
    let mut settings = AppSettings {
        grpc_enabled: true,
        ..AppSettings::default()
    };
    settings.grpc_features.push("blueprints".into());
    assert!(settings.require_grpc("blueprints").is_ok());
    // Master on, but this feature not in the allow-list.
    assert_eq!(
        settings.require_grpc("missions"),
        Err("gRPC feature 'missions' is not enabled (Settings → Online)".to_string())
    );
}

#[test]
fn offline_trumps_everything() {
    let mut settings = AppSettings {
        online_enabled: false,
        grpc_enabled: true,
        ..AppSettings::default()
    };
    settings.grpc_features.push("blueprints".into());
    assert!(settings.require_online().is_err());
    assert_eq!(
        settings.require_grpc("blueprints"),
        Err("online features are disabled (Settings → Online)".to_string())
    );
}

fn owned(ids: &[&str], fetched_at: i64) -> OwnedBlueprints {
    let mut set = StrMap::new();
    for id in ids {
        set.insert(id, ());
    }
    OwnedBlueprints {
        blueprint_ids: set,
        fetched_at,
    }
}

#[test]
fn cache_roundtrips_and_absent_reads_none() {
    let svc = DossierService::new("cache");
    assert!(svc.blueprints_path().ends_with("blueprints.json"));
    // Nothing fetched yet: the never-fetched set reads as no cache.
    assert!(svc.cached_blueprints(owned(&[], 0)).is_none());
    let read = svc
        .cached_blueprints(owned(&["a", "b", "c"], 1_700_000_000))
        .expect("cached set present");
    assert_eq!(read.blueprint_ids.len(), 3);
    assert!(read.blueprint_ids.contains_key("b"));
    assert_eq!(read.fetched_at, 1_700_000_000);
    // After a clear nothing is stored, which again reads as no cache.
    assert!(svc.cached_blueprints(owned(&[], 0)).is_none());
}

#[test]
fn never_fetched_set_reads_as_no_cache() {
    let svc = DossierService::new("cache");
    assert!(svc.cached_blueprints(owned(&[], 0)).is_none());
    assert!(svc.cached_blueprints(owned(&["a"], 0)).is_none());
}

#[test]
fn fetched_at_zero_is_treated_as_no_cache() {
    let svc = DossierService::new("cache");
    assert!(svc.cached_blueprints(owned(&[], 0)).is_none());
}
