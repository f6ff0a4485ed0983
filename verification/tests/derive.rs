use starlume::cooked::CookedData;
use starlume::derive::{cache_complete, derive_ops, DeriveError, DeriveOpsError, OpsCache};
use starlume::ops::{LangpatchConfig, PatchOp, PatcherConfig};
use starlume::strmap::StrMap;
use starlume::toml_patcher::{
    Definition, TomlChoice, TomlFile, TomlMeta, TomlOption, TomlOptionKind, TomlPatchEntry,
    TomlPatcher,
};
use starlume::Patcher;

/// A declarative patcher standing in for a code patcher: it prefixes
/// `some_key` with `[<tag>]`, `tag` being an option (default `x`).
fn fake_patcher() -> TomlPatcher {
    let rule = |tag: &str| TomlPatchEntry {
        key: Some("some_key".into()),
        keys: None,
        key_pattern: None,
        value_contains: None,
        when: vec![("tag".into(), tag.into())],
        replace: None,
        prefix: Some(format!("[{tag}]")),
        suffix: None,
    };
    let file = TomlFile {
        module: TomlMeta {
            name: "Fake".into(),
            description: "test".into(),
            default_enabled: None,
            priority: None,
        },
        option: vec![TomlOption {
            id: "tag".into(),
            label: "Tag".into(),
            description: String::new(),
            kind: TomlOptionKind::Choice,
            choices: vec![
                TomlChoice { value: "x".into(), label: "x".into() },
                TomlChoice { value: "y".into(), label: "y".into() },
            ],
            default: "x".into(),
        }],
        patch: vec![rule("x"), rule("y")],
        rename: Vec::new(),
    };
    match Definition::parse("fake", &file) {
        Ok(def) => TomlPatcher { def },
        Err(_) => panic!("fake definition parses"),
    }
}

fn cooked() -> CookedData {
    let mut c = CookedData::new();
    c.locale.set("some_key", "value");
    c
}

fn patchers() -> Vec<Box<dyn Patcher>> {
    vec![Box::new(fake_patcher())]
}

fn with_patcher(enabled: Option<bool>, options: &[(&str, &str)]) -> LangpatchConfig {
    let mut config = LangpatchConfig::new();
    let mut opts = StrMap::new();
    for (k, v) in options {
        opts.insert(k, v.to_string());
    }
    config.patchers.insert("fake", PatcherConfig { enabled, options: opts });
    config
}

#[test]
fn cache_hits_skip_derive_and_survive_options_change() {
    let mut cache = OpsCache::new();
    let config = LangpatchConfig::new();
    let patchers = patchers();

    assert!(!cache_complete(&cache, "b1", &config, &patchers));
    let (first, dirty) = match derive_ops(&mut cache, "b1", Some(&cooked()), &config, &patchers) {
        Ok(r) => r,
        Err(_) => panic!("derive succeeds"),
    };
    assert!(dirty);
    assert_eq!(first.len(), 1);
    assert!(cache_complete(&cache, "b1", &config, &patchers));

    // Second run: cache hit, cooked not needed at all.
    let (second, dirty) = match derive_ops(&mut cache, "b1", None, &config, &patchers) {
        Ok(r) => r,
        Err(_) => panic!("cache hit"),
    };
    assert!(!dirty);
    assert_eq!(second[0].ops, first[0].ops);

    // Option change → cache miss for that patcher.
    let changed = with_patcher(None, &[("tag", "y")]);
    assert!(!cache_complete(&cache, "b1", &changed, &patchers));
    let (third, _) = match derive_ops(&mut cache, "b1", Some(&cooked()), &changed, &patchers) {
        Ok(r) => r,
        Err(_) => panic!("derive succeeds"),
    };
    assert_eq!(third[0].ops.patches[0].1, PatchOp::Prefix("[y]".into()));

    // New build → cache invalid even with the old config.
    assert!(!cache_complete(&cache, "b2", &config, &patchers));
}

#[test]
fn missing_cooked_on_cache_miss_errors_with_patcher_list() {
    let mut cache = OpsCache::new();
    let config = LangpatchConfig::new();
    let patchers = patchers();
    match derive_ops(&mut cache, "b1", None, &config, &patchers) {
        Err(DeriveOpsError::NeedsCookedData(e)) => {
            assert_eq!(e.missing, vec!["fake".to_string()]);
            assert_eq!(
                e.message(),
                "derive needs cooked game data for [\"fake\"] but none was provided"
            );
        }
        _ => panic!("expected NeedsCookedData"),
    }
}

#[test]
fn disabled_patchers_are_skipped() {
    let mut cache = OpsCache::new();
    let config = with_patcher(Some(false), &[]);
    let patchers = patchers();
    let (ops, _) = match derive_ops(&mut cache, "b1", None, &config, &patchers) {
        Ok(r) => r,
        Err(_) => panic!("nothing to derive"),
    };
    assert!(ops.is_empty());
    assert!(cache_complete(&cache, "b1", &config, &patchers));
}

#[test]
fn derive_error_message_lists_every_missing_id() {
    let two = DeriveError { missing: vec!["a".to_string(), "b".to_string()] };
    assert_eq!(two.message(), "derive needs cooked game data for [\"a\", \"b\"] but none was provided");
    let none = DeriveError { missing: Vec::new() };
    assert_eq!(none.message(), "derive needs cooked game data for [] but none was provided");
}

#[test]
fn cache_of_another_build_needs_cooked_data() {
    let mut cache = OpsCache::new();
    let config = LangpatchConfig::new();
    let patchers = patchers();
    assert!(derive_ops(&mut cache, "b1", Some(&cooked()), &config, &patchers).is_ok());
    match derive_ops(&mut cache, "b2", None, &config, &patchers) {
        Err(DeriveOpsError::NeedsCookedData(e)) => assert_eq!(e.missing, vec!["fake".to_string()]),
        _ => panic!("expected NeedsCookedData"),
    }
}
