use starlume::cooked::LocaleMap;
use starlume::ops::{KeyRename, PatchOp, PatcherConfig};
use starlume::strmap::StrMap;
use starlume::cooked::CookedData;
use starlume::patchers::builtin_patchers;
use starlume::Patcher;
use starlume::toml_patcher::{
    label_fixes, resolve_template, Definition, DefinitionError, GlobPattern, PatternError, RuleError,
    TomlChoice, TomlFile, TomlMeta, TomlOption, TomlOptionKind, TomlPatchEntry, TomlRenameEntry,
};

fn module(name: &str) -> TomlMeta {
    TomlMeta {
        name: name.to_string(),
        description: String::new(),
        default_enabled: None,
        priority: None,
    }
}

fn file(patch: Vec<TomlPatchEntry>) -> TomlFile {
    TomlFile {
        module: module("Test"),
        option: Vec::new(),
        patch,
        rename: Vec::new(),
    }
}

fn entry() -> TomlPatchEntry {
    TomlPatchEntry {
        key: None,
        keys: None,
        key_pattern: None,
        value_contains: None,
        when: Vec::new(),
        replace: None,
        prefix: None,
        suffix: None,
    }
}

fn parse(f: &TomlFile) -> Definition {
    match Definition::parse("test", f) {
        Ok(d) => d,
        Err(_) => panic!("test definition parses"),
    }
}

fn locale_with(entries: &[(&str, &str)]) -> LocaleMap {
    let mut locale = LocaleMap::new();
    for (k, v) in entries {
        locale.set(k, v);
    }
    locale
}

#[test]
fn exact_key_replace() {
    let def = parse(&file(vec![TomlPatchEntry {
        key: Some("item_Name".into()),
        replace: Some("New Name".into()),
        ..entry()
    }]));
    let locale = locale_with(&[("item_Name", "Old Name"), ("other", "Untouched")]);
    let ops = def.derive(&locale, &PatcherConfig::new());
    assert_eq!(
        ops.patches,
        vec![(
            "item_Name".to_string(),
            PatchOp::Replace("New Name".to_string())
        )]
    );
}

#[test]
fn multiple_keys_prefix() {
    let def = parse(&file(vec![TomlPatchEntry {
        keys: Some(vec!["a".into(), "b".into(), "c".into()]),
        prefix: Some("[!] ".into()),
        ..entry()
    }]));
    let locale = locale_with(&[("a", "Alpha"), ("b", "Beta"), ("c", "Charlie"), ("d", "Delta")]);
    let ops = def.derive(&locale, &PatcherConfig::new());
    assert_eq!(ops.patches.len(), 3);
    for (key, op) in &ops.patches {
        assert_ne!(key, "d");
        assert_eq!(*op, PatchOp::Prefix("[!] ".to_string()));
    }
}

#[test]
fn pattern_matching_sorted_by_key() {
    let def = parse(&file(vec![TomlPatchEntry {
        key_pattern: Some("item_Name*_SCItem".into()),
        prefix: Some("[W] ".into()),
        ..entry()
    }]));
    let locale = locale_with(&[
        ("item_NameWEAP_Laser_SCItem", "Laser"),
        ("item_NameCOOL_Fan_SCItem", "Fan"),
        ("item_NameOther", "Other"),
        ("unrelated_key", "Nope"),
    ]);
    let ops = def.derive(&locale, &PatcherConfig::new());
    let keys: Vec<&str> = ops.patches.iter().map(|(k, _)| k.as_str()).collect();
    assert_eq!(
        keys,
        vec!["item_NameCOOL_Fan_SCItem", "item_NameWEAP_Laser_SCItem"],
        "matches must be present and sorted for deterministic op-sets",
    );
}

#[test]
fn pattern_with_captures() {
    let def = parse(&file(vec![TomlPatchEntry {
        key_pattern: Some("item_Name*_S{size}_*".into()),
        suffix: Some(" [S{size}]".into()),
        ..entry()
    }]));
    let locale = locale_with(&[
        ("item_NameCOOL_AEGS_S01_Bracer", "Bracer"),
        ("item_NamePOWR_AMRS_S03_Turbo", "Turbo"),
        ("item_NameNoSize", "Plain"),
    ]);
    let ops = def.derive(&locale, &PatcherConfig::new());
    assert_eq!(ops.patches.len(), 2);
    assert!(ops.patches.contains(&(
        "item_NameCOOL_AEGS_S01_Bracer".to_string(),
        PatchOp::Suffix(" [S01]".to_string())
    )));
    assert!(ops.patches.contains(&(
        "item_NamePOWR_AMRS_S03_Turbo".to_string(),
        PatchOp::Suffix(" [S03]".to_string())
    )));
}

#[test]
fn value_contains_condition() {
    let def = parse(&file(vec![TomlPatchEntry {
        key_pattern: Some("item_Desc*".into()),
        value_contains: Some("Grade: A".into()),
        prefix: Some("[A] ".into()),
        ..entry()
    }]));
    let locale = locale_with(&[
        ("item_DescWeapon1", "Type: Weapon\\nGrade: A\\nSize: 2"),
        ("item_DescWeapon2", "Type: Weapon\\nGrade: C\\nSize: 1"),
    ]);
    let ops = def.derive(&locale, &PatcherConfig::new());
    assert_eq!(
        ops.patches,
        vec![(
            "item_DescWeapon1".to_string(),
            PatchOp::Prefix("[A] ".to_string())
        )]
    );
}

#[test]
fn missing_key_produces_no_patch() {
    let def = parse(&file(vec![TomlPatchEntry {
        key: Some("nonexistent".into()),
        replace: Some("Nope".into()),
        ..entry()
    }]));
    let locale = locale_with(&[("other_key", "Value")]);
    let ops = def.derive(&locale, &PatcherConfig::new());
    assert!(ops.patches.is_empty());
}

#[test]
fn at_prefix_stripped_from_exact_keys() {
    let def = parse(&file(vec![TomlPatchEntry {
        key: Some("@item_Name".into()),
        replace: Some("New".into()),
        ..entry()
    }]));
    let locale = locale_with(&[("item_Name", "Old")]);
    let ops = def.derive(&locale, &PatcherConfig::new());
    assert_eq!(
        ops.patches,
        vec![("item_Name".to_string(), PatchOp::Replace("New".to_string()))]
    );
}

#[test]
fn renames_pass_through() {
    let mut f = file(Vec::new());
    f.rename.push(TomlRenameEntry {
        from: "typo_key".into(),
        to: "correct_key".into(),
    });
    let def = parse(&f);
    let locale = locale_with(&[("old_key", "Val")]);
    let ops = def.derive(&locale, &PatcherConfig::new());
    assert_eq!(
        ops.renames,
        vec![KeyRename {
            from: "typo_key".to_string(),
            to: "correct_key".to_string()
        }]
    );
}

#[test]
fn default_enabled_parsing() {
    let implicit = parse(&file(Vec::new()));
    assert!(implicit.default_enabled);
    assert_eq!(implicit.priority, 100);

    let mut f = file(Vec::new());
    f.module.default_enabled = Some(false);
    let explicit = parse(&f);
    assert!(!explicit.default_enabled);
}

#[test]
fn when_condition_uses_declared_default() {
    let mut f = file(vec![TomlPatchEntry {
        key: Some("a".into()),
        prefix: Some("[F] ".into()),
        when: vec![("style".into(), "fancy".into())],
        ..entry()
    }]);
    f.option.push(TomlOption {
        id: "style".into(),
        label: "Style".into(),
        description: String::new(),
        kind: TomlOptionKind::Choice,
        choices: vec![
            TomlChoice { value: "fancy".into(), label: "Fancy".into() },
            TomlChoice { value: "plain".into(), label: "Plain".into() },
        ],
        default: "fancy".into(),
    });
    let def = parse(&f);
    assert_eq!(def.options.len(), 1);
    let locale = locale_with(&[("a", "Alpha")]);
    let ops = def.derive(&locale, &PatcherConfig::new());
    assert_eq!(ops.patches.len(), 1, "default option value satisfies when");
}

#[test]
fn when_condition_respects_config_override() {
    let mut f = file(vec![TomlPatchEntry {
        key: Some("a".into()),
        prefix: Some("[!] ".into()),
        when: vec![("markers".into(), "true".into())],
        ..entry()
    }]);
    f.option.push(TomlOption {
        id: "markers".into(),
        label: "Markers".into(),
        description: String::new(),
        kind: TomlOptionKind::Bool,
        choices: Vec::new(),
        default: "true".into(),
    });
    let def = parse(&f);
    let locale = locale_with(&[("a", "Alpha")]);
    let mut options = StrMap::new();
    options.insert("markers", "false".to_string());
    let config = PatcherConfig { enabled: None, options };
    let ops = def.derive(&locale, &config);
    assert!(ops.patches.is_empty(), "overridden option gates the rule off");
}

#[test]
fn invalid_rules_fail_parse() {
    // No op.
    let f = file(vec![TomlPatchEntry { key: Some("a".into()), ..entry() }]);
    assert!(Definition::parse("t", &f).is_err());
    // Two ops.
    let f = file(vec![TomlPatchEntry {
        key: Some("a".into()),
        replace: Some("x".into()),
        prefix: Some("y".into()),
        ..entry()
    }]);
    assert!(Definition::parse("t", &f).is_err());
    // No matcher.
    let f = file(vec![TomlPatchEntry { replace: Some("x".into()), ..entry() }]);
    assert!(Definition::parse("t", &f).is_err());
    // Empty capture name.
    let f = file(vec![TomlPatchEntry {
        key_pattern: Some("a{}b".into()),
        replace: Some("x".into()),
        ..entry()
    }]);
    assert!(Definition::parse("t", &f).is_err());
}

#[test]
fn rule_errors_are_specific() {
    let err = |e: TomlPatchEntry| match Definition::parse("t", &file(vec![e])) {
        Err(DefinitionError::Rule(r)) => r,
        _ => panic!("expected a rule error"),
    };
    assert_eq!(err(TomlPatchEntry { key: Some("a".into()), ..entry() }), RuleError::NoOp);
    assert_eq!(
        err(TomlPatchEntry {
            key: Some("a".into()),
            replace: Some("x".into()),
            suffix: Some("y".into()),
            ..entry()
        }),
        RuleError::TwoOps
    );
    assert_eq!(err(TomlPatchEntry { replace: Some("x".into()), ..entry() }), RuleError::NoMatcher);
    assert_eq!(
        err(TomlPatchEntry {
            key: Some("a".into()),
            key_pattern: Some("a*".into()),
            replace: Some("x".into()),
            ..entry()
        }),
        RuleError::TwoMatchers
    );
    assert_eq!(
        err(TomlPatchEntry {
            key_pattern: Some("a{b".into()),
            replace: Some("x".into()),
            ..entry()
        }),
        RuleError::Pattern(PatternError::Unclosed)
    );
    assert_eq!(
        err(TomlPatchEntry {
            key_pattern: Some("a{}".into()),
            replace: Some("x".into()),
            ..entry()
        }),
        RuleError::Pattern(PatternError::EmptyCapture)
    );
}

#[test]
fn choice_option_without_choices_fails() {
    let mut f = file(Vec::new());
    f.option.push(TomlOption {
        id: "style".into(),
        label: "Style".into(),
        description: String::new(),
        kind: TomlOptionKind::Choice,
        choices: Vec::new(),
        default: "x".into(),
    });
    match Definition::parse("t", &f) {
        Err(DefinitionError::NoChoices(id)) => assert_eq!(id, "style"),
        _ => panic!("expected NoChoices"),
    }
}

#[test]
fn glob_captures_take_the_longest_run() {
    let g = match GlobPattern::compile("x_{a}_{b}") {
        Ok(g) => g,
        Err(_) => panic!("compiles"),
    };
    assert_eq!(
        g.captures("x_one_two"),
        Some(vec![
            ("a".to_string(), "one".to_string()),
            ("b".to_string(), "two".to_string())
        ])
    );
    assert_eq!(g.captures("x_one"), None);
    let star = match GlobPattern::compile("a*b*c") {
        Ok(g) => g,
        Err(_) => panic!("compiles"),
    };
    assert_eq!(star.captures("abbbc"), Some(Vec::new()));
    assert_eq!(star.captures("abx"), None);
}

#[test]
fn templates_substitute_every_placeholder() {
    let caps = vec![
        ("n".to_string(), "7".to_string()),
        ("s".to_string(), "S2".to_string()),
    ];
    assert_eq!(resolve_template("{s}/{n}/{n}{x}", &caps), "S2/7/7{x}");
    assert_eq!(resolve_template("plain", &Vec::new()), "plain");
}

#[test]
fn uses_replace_flag_and_renames_stripped() {
    let mut f = file(vec![
        TomlPatchEntry { key: Some("a".into()), prefix: Some("p".into()), ..entry() },
        TomlPatchEntry { key: Some("b".into()), replace: Some("r".into()), ..entry() },
    ]);
    f.rename.push(TomlRenameEntry { from: "@x".into(), to: "@y".into() });
    let def = parse(&f);
    assert!(def.uses_replace);
    let ops = def.derive(&locale_with(&[("a", "A"), ("b", "B")]), &PatcherConfig::new());
    assert_eq!(
        ops.patches,
        vec![
            ("a".to_string(), PatchOp::Prefix("p".to_string())),
            ("b".to_string(), PatchOp::Replace("r".to_string())),
        ]
    );
    assert_eq!(ops.renames, vec![KeyRename { from: "x".into(), to: "y".into() }]);
}

#[test]
fn embedded_label_fixes_derives_expected_ops() {
    let patcher = label_fixes();
    assert_eq!(patcher.id(), "label_fixes");
    assert_eq!(patcher.name(), "Label Fixes");
    assert_eq!(patcher.description(), "Shorten labels that cause text overlap in the game UI");
    assert!(patcher.default_enabled());
    assert!(patcher.uses_replace_ops());
    assert_eq!(patcher.priority(), 100);

    let mut cooked = CookedData::new();
    cooked.locale.set("hud_mining_scanning_instability", "Instability:");
    cooked.locale.set("items_commodities_hephaestanite", "Hephaestanite");
    cooked.locale.set("unrelated", "Untouched");

    let ops = patcher.derive(&cooked, &PatcherConfig::new()).expect("derive succeeds");
    assert_eq!(ops.patches.len(), 2, "only present keys are patched");
    assert!(ops.patches.contains(&(
        "hud_mining_scanning_instability".to_string(),
        PatchOp::Replace("Instab.:".to_string())
    )));
    assert!(ops.patches.contains(&(
        "items_commodities_hephaestanite".to_string(),
        PatchOp::Replace("Heph".to_string())
    )));
}

#[test]
fn registry_lists_the_four_builtins_in_order() {
    let ids: Vec<String> = builtin_patchers().iter().map(|p| p.id().to_string()).collect();
    assert_eq!(ids, vec!["component_grades", "illegal_goods", "weapon_enhancer", "label_fixes"]);
}
