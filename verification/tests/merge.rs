use starlume::merge::{
    apply_language_pack, apply_patches, apply_renames, apply_user_overrides, cfg_after_remove,
    cfg_after_write, encode_utf8_bom, override_path, parse_ini, remove_cfg_key, upsert_cfg_key,
    ApplyStats, CfgUpdate,
};
use starlume::ops::{KeyRename, PatchOp};
use starlume::strmap::StrMap;
use std::path::Path;

fn lines_of(src: &str) -> Vec<String> {
    src.lines().map(str::to_owned).collect()
}

/// Value of the first line whose *raw* key is `raw_key`, or None.
fn value_of<'a>(lines: &'a [String], raw_key: &str) -> Option<&'a str> {
    let prefix = format!("{raw_key}=");
    lines.iter().find_map(|l| l.strip_prefix(prefix.as_str()))
}

fn patch_map(patches: &[(&str, PatchOp)]) -> StrMap<Vec<PatchOp>> {
    let mut map: StrMap<Vec<PatchOp>> = StrMap::new();
    for (key, op) in patches {
        map.push_to(key, op.clone());
    }
    map
}

fn apply(lines: &mut Vec<String>, patches: &[(&str, PatchOp)]) -> ApplyStats {
    apply_patches(lines, &patch_map(patches))
}

fn overrides(pairs: &[(&str, &str)]) -> StrMap<String> {
    let mut map = StrMap::new();
    for (k, v) in pairs {
        map.insert(k, v.to_string());
    }
    map
}

#[test]
fn encode_prepends_bom_and_joins_with_newlines() {
    let bytes = encode_utf8_bom(&lines_of("a=1\nb=2"));
    assert_eq!(bytes, b"\xEF\xBB\xBFa=1\nb=2\n");
}

// ── parse_ini ───────────────────────────────────────────────────────

#[test]
fn parse_ini_basic() {
    let map = parse_ini(&lines_of("alpha=one\nbeta=two\n"));
    assert_eq!(map.get("alpha").unwrap(), "one");
    assert_eq!(map.get("beta").unwrap(), "two");
    assert_eq!(map.len(), 2);
}

#[test]
fn parse_ini_value_with_equals() {
    let map = parse_ini(&lines_of("formula=a=b+c\n"));
    assert_eq!(map.get("formula").unwrap(), "a=b+c");
}

#[test]
fn parse_ini_empty_value() {
    let map = parse_ini(&lines_of("empty=\n"));
    assert_eq!(map.get("empty").unwrap(), "");
}

#[test]
fn parse_ini_skips_non_kv_lines() {
    let map = parse_ini(&lines_of("# comment\nkey=value\n\n"));
    assert_eq!(map.len(), 1);
    assert_eq!(map.get("key").unwrap(), "value");
}

#[test]
fn parse_ini_strips_locale_metadata_suffix() {
    let map = parse_ini(&lines_of("item_NameXYZ,P=Novian\n"));
    assert_eq!(map.get("item_NameXYZ").unwrap(), "Novian");
    assert!(!map.contains_key("item_NameXYZ,P"));
}

// ── apply_patches ───────────────────────────────────────────────────

#[test]
fn replace_changes_value() {
    let mut lines = lines_of("key_a=Original\nkey_b=Untouched\n");
    let stats = apply(
        &mut lines,
        &[("key_a", PatchOp::Replace("New Value".into()))],
    );
    assert_eq!(value_of(&lines, "key_a").unwrap(), "New Value");
    assert_eq!(value_of(&lines, "key_b").unwrap(), "Untouched");
    assert_eq!(stats.patched_lines, 1);
    assert_eq!(stats.missing_keys, 0);
}

#[test]
fn prefix_prepends_to_value() {
    let mut lines = lines_of("drug=Altruciatoxin\n");
    apply(&mut lines, &[("drug", PatchOp::Prefix("[!] ".into()))]);
    assert_eq!(value_of(&lines, "drug").unwrap(), "[!] Altruciatoxin");
}

#[test]
fn suffix_appends_to_value() {
    let mut lines = lines_of("title=Mining Contract\n");
    apply(&mut lines, &[("title", PatchOp::Suffix(" [BP]".into()))]);
    assert_eq!(value_of(&lines, "title").unwrap(), "Mining Contract [BP]");
}

#[test]
fn no_data_loss_all_lines_preserved() {
    let mut lines = lines_of("key_a=Value A\nkey_b=Value B\nkey_c=Value C\nkey_d=Value D\n");
    apply(&mut lines, &[("key_b", PatchOp::Replace("Changed".into()))]);
    assert_eq!(lines.len(), 4);
    assert_eq!(value_of(&lines, "key_a").unwrap(), "Value A");
    assert_eq!(value_of(&lines, "key_b").unwrap(), "Changed");
    assert_eq!(value_of(&lines, "key_c").unwrap(), "Value C");
    assert_eq!(value_of(&lines, "key_d").unwrap(), "Value D");
}

#[test]
fn unmatched_patch_counts_missing_and_does_not_corrupt() {
    let mut lines = lines_of("exists=Value\n");
    let stats = apply(
        &mut lines,
        &[("nonexistent", PatchOp::Replace("Ghost".into()))],
    );
    assert_eq!(value_of(&lines, "exists").unwrap(), "Value");
    assert!(!lines.iter().any(|l| l.starts_with("nonexistent=")));
    assert_eq!(stats.patched_lines, 0);
    assert_eq!(stats.missing_keys, 1);
}

#[test]
fn values_with_equals_signs_preserved() {
    let mut lines = lines_of("formula=a=b+c=d\n");
    apply(&mut lines, &[]);
    assert_eq!(value_of(&lines, "formula").unwrap(), "a=b+c=d");
}

#[test]
fn suffix_on_value_with_markup() {
    let mut lines = lines_of("desc=Contract details\\nLocation: Pyro\n");
    apply(
        &mut lines,
        &[(
            "desc",
            PatchOp::Suffix("\\n\\nBlueprints:\\n- Item A".into()),
        )],
    );
    assert_eq!(
        value_of(&lines, "desc").unwrap(),
        "Contract details\\nLocation: Pyro\\n\\nBlueprints:\\n- Item A",
    );
}

#[test]
fn empty_value_replace() {
    let mut lines = lines_of("empty=\n");
    apply(
        &mut lines,
        &[("empty", PatchOp::Replace("Now has value".into()))],
    );
    assert_eq!(value_of(&lines, "empty").unwrap(), "Now has value");
}

#[test]
fn empty_value_prefix_suffix() {
    let mut lines = lines_of("empty=\n");
    apply(&mut lines, &[("empty", PatchOp::Prefix("pre".into()))]);
    assert_eq!(value_of(&lines, "empty").unwrap(), "pre");

    let mut lines = lines_of("empty=\n");
    apply(&mut lines, &[("empty", PatchOp::Suffix("suf".into()))]);
    assert_eq!(value_of(&lines, "empty").unwrap(), "suf");
}

#[test]
fn ops_stack_in_order() {
    // Replace then Prefix/Suffix compose; a later Replace wipes both.
    let mut lines = lines_of("key=Original\n");
    apply(
        &mut lines,
        &[
            ("key", PatchOp::Replace("Base".into())),
            ("key", PatchOp::Prefix("<".into())),
            ("key", PatchOp::Suffix(">".into())),
        ],
    );
    assert_eq!(value_of(&lines, "key").unwrap(), "<Base>");
}

#[test]
fn last_replace_wins_on_key_conflict() {
    let mut lines = lines_of("key=Original\n");
    apply(
        &mut lines,
        &[
            ("key", PatchOp::Replace("First".into())),
            ("key", PatchOp::Replace("Second".into())),
        ],
    );
    assert_eq!(value_of(&lines, "key").unwrap(), "Second");
}

#[test]
fn line_order_preserved() {
    let mut lines = lines_of("zebra=Z\nalpha=A\nmiddle=M\n");
    apply(
        &mut lines,
        &[("middle", PatchOp::Replace("Changed".into()))],
    );
    let keys: Vec<&str> = lines.iter().filter_map(|l| l.split('=').next()).collect();
    assert_eq!(keys, vec!["zebra", "alpha", "middle"]);
}

#[test]
fn non_kv_lines_passthrough() {
    let mut lines = lines_of("# comment\nkey=value\n\n; another comment\n");
    apply(&mut lines, &[]);
    assert!(lines.contains(&"# comment".to_string()));
    assert!(lines.contains(&"; another comment".to_string()));
}

#[test]
fn skips_uninitialized_placeholder_value() {
    let mut lines = lines_of("LOC_UNINITIALIZED=<= UNINITIALIZED =>\nother=Untouched\n");
    let stats = apply(
        &mut lines,
        &[(
            "LOC_UNINITIALIZED",
            PatchOp::Suffix("\\n\\n<EM4>Blueprints</EM4>...".into()),
        )],
    );
    assert_eq!(
        value_of(&lines, "LOC_UNINITIALIZED").unwrap(),
        "<= UNINITIALIZED =>",
    );
    assert_eq!(value_of(&lines, "other").unwrap(), "Untouched");
    assert_eq!(stats.skipped_placeholders, 1);
    assert_eq!(stats.patched_lines, 0);
    // Skipped ≠ missing: the key existed, we chose not to patch it.
    assert_eq!(stats.missing_keys, 0);
}

#[test]
fn skips_placeholder_sentinel_value() {
    let mut lines = lines_of("LOC_PLACEHOLDER=S1 ???0A <= PLACEHOLDER =>\n");
    apply(
        &mut lines,
        &[(
            "LOC_PLACEHOLDER",
            PatchOp::Replace("Should not land".into()),
        )],
    );
    assert_eq!(
        value_of(&lines, "LOC_PLACEHOLDER").unwrap(),
        "S1 ???0A <= PLACEHOLDER =>",
    );
}

#[test]
fn placeholder_skip_is_case_insensitive() {
    let mut lines = lines_of("weird_caps=<= placeholder =>\n");
    apply(
        &mut lines,
        &[("weird_caps", PatchOp::Suffix(" tail".into()))],
    );
    assert_eq!(value_of(&lines, "weird_caps").unwrap(), "<= placeholder =>");
}

#[test]
fn placeholder_substring_in_normal_value_still_patches() {
    let mut lines = lines_of("note=Use as placeholder until ready\n");
    apply(&mut lines, &[("note", PatchOp::Suffix(" [done]".into()))]);
    assert_eq!(
        value_of(&lines, "note").unwrap(),
        "Use as placeholder until ready [done]",
    );
}

#[test]
fn comma_suffixed_key_matches_bare_patch_key() {
    let mut lines = lines_of(
        "item_Nameutfl_crossbow_ballistic_01_tint01,P=Novian \"Nighthunter\" Crossbow\n",
    );
    apply(
        &mut lines,
        &[(
            "item_Nameutfl_crossbow_ballistic_01_tint01",
            PatchOp::Suffix(" [BP]".into()),
        )],
    );
    assert_eq!(
        lines[0],
        "item_Nameutfl_crossbow_ballistic_01_tint01,P=Novian \"Nighthunter\" Crossbow [BP]",
    );
}

// ── apply_renames ───────────────────────────────────────────────────

#[test]
fn rename_changes_key_keeps_value() {
    let mut lines = lines_of("old_key=MyValue\nother=Untouched\n");
    let n = apply_renames(
        &mut lines,
        &[KeyRename {
            from: "old_key".into(),
            to: "new_key".into(),
        }],
    );
    assert_eq!(n, 1);
    assert_eq!(value_of(&lines, "new_key").unwrap(), "MyValue");
    assert!(value_of(&lines, "old_key").is_none());
    assert_eq!(value_of(&lines, "other").unwrap(), "Untouched");
}

#[test]
fn rename_missing_key_is_noop() {
    let mut lines = lines_of("existing=Value\n");
    let n = apply_renames(
        &mut lines,
        &[KeyRename {
            from: "nonexistent".into(),
            to: "new_key".into(),
        }],
    );
    assert_eq!(n, 0);
    assert_eq!(value_of(&lines, "existing").unwrap(), "Value");
    assert!(value_of(&lines, "new_key").is_none());
}

#[test]
fn rename_preserves_line_count() {
    let mut lines = lines_of("a=1\nb=2\nc=3\n");
    apply_renames(
        &mut lines,
        &[KeyRename {
            from: "b".into(),
            to: "b_new".into(),
        }],
    );
    assert_eq!(lines.len(), 3);
}

#[test]
fn rename_preserves_locale_metadata_suffix() {
    let mut lines = lines_of("old,P=Value\n");
    apply_renames(
        &mut lines,
        &[KeyRename {
            from: "old".into(),
            to: "new".into(),
        }],
    );
    assert_eq!(lines[0], "new,P=Value");
}

#[test]
fn rename_then_patch_pipeline() {
    let mut lines = lines_of("item_NameSHLD_S01_CMP_YORM_Targa=Targa\nother=Foo\n");
    apply_renames(
        &mut lines,
        &[KeyRename {
            from: "item_NameSHLD_S01_CMP_YORM_Targa".into(),
            to: "item_NameSHLD_YORM_S01_Targa".into(),
        }],
    );
    apply(
        &mut lines,
        &[(
            "item_NameSHLD_YORM_S01_Targa",
            PatchOp::Replace("Targa Competition B".into()),
        )],
    );
    assert_eq!(
        value_of(&lines, "item_NameSHLD_YORM_S01_Targa").unwrap(),
        "Targa Competition B",
    );
    assert!(
        !lines
            .iter()
            .any(|l| l.contains("item_NameSHLD_S01_CMP_YORM_Targa"))
    );
}

// ── apply_language_pack ─────────────────────────────────────────────

#[test]
fn pack_replaces_matching_keys() {
    let mut lines = lines_of("item_NameABC=Bracer\nitem_DescABC=A cooler.\nother=untouched\n");
    let n = apply_language_pack(
        &mut lines,
        &lines_of("item_NameABC=Armreif\nitem_DescABC=Ein Kühler.\n"),
    );
    assert_eq!(n, 2);
    assert_eq!(value_of(&lines, "item_NameABC").unwrap(), "Armreif");
    assert_eq!(value_of(&lines, "item_DescABC").unwrap(), "Ein Kühler.");
    assert_eq!(value_of(&lines, "other").unwrap(), "untouched");
}

#[test]
fn pack_appends_new_keys_not_in_base() {
    let mut lines = lines_of("existing=value\n");
    let n = apply_language_pack(
        &mut lines,
        &lines_of("existing=translated\nbrand_new=neuer eintrag\n"),
    );
    assert_eq!(n, 2);
    assert_eq!(value_of(&lines, "existing").unwrap(), "translated");
    assert_eq!(value_of(&lines, "brand_new").unwrap(), "neuer eintrag");
}

#[test]
fn pack_preserves_base_line_order() {
    let mut lines = lines_of("zebra=Z\nalpha=A\nmiddle=M\n");
    apply_language_pack(&mut lines, &lines_of("middle=übersetzt\n"));
    let keys: Vec<&str> = lines.iter().filter_map(|l| l.split('=').next()).collect();
    assert_eq!(keys, vec!["zebra", "alpha", "middle"]);
}

#[test]
fn pack_ignores_lines_without_equals() {
    let mut lines = lines_of("key=original\n");
    apply_language_pack(
        &mut lines,
        &lines_of("; comment line\n\nkey=translated\nrandom garbage line\n"),
    );
    assert_eq!(value_of(&lines, "key").unwrap(), "translated");
    assert!(!lines.iter().any(|l| l == "random garbage line"));
}

#[test]
fn pack_preserves_values_with_embedded_equals() {
    let mut lines = lines_of("formula=a=b+c=d\n");
    apply_language_pack(&mut lines, &lines_of("formula=x=y+z=w\n"));
    assert_eq!(value_of(&lines, "formula").unwrap(), "x=y+z=w");
}

#[test]
fn pack_matches_comma_suffixed_base_key() {
    let mut lines = lines_of("item_NameXYZ,P=Nighthunter\n");
    apply_language_pack(&mut lines, &lines_of("item_NameXYZ=Nachtjäger\n"));
    assert_eq!(lines[0], "item_NameXYZ,P=Nachtjäger");
    // Matched, not appended.
    assert_eq!(lines.len(), 1);
}

// ── apply_user_overrides ────────────────────────────────────────────


#[test]
fn user_override_replaces_existing_value() {
    let mut lines = lines_of("key_a=Patched\nkey_b=Untouched\n");
    let n = apply_user_overrides(&mut lines, &overrides(&[("key_a", "Mine")]));
    assert_eq!(n, 1);
    assert_eq!(value_of(&lines, "key_a").unwrap(), "Mine");
    assert_eq!(value_of(&lines, "key_b").unwrap(), "Untouched");
    assert_eq!(lines.len(), 2);
}

#[test]
fn user_override_preserves_locale_metadata_suffix() {
    let mut lines = lines_of("item_NameXYZ,P=Novian\n");
    let n = apply_user_overrides(&mut lines, &overrides(&[("item_NameXYZ", "My Name")]));
    assert_eq!(n, 1);
    assert_eq!(lines[0], "item_NameXYZ,P=My Name");
}

#[test]
fn user_override_appends_missing_key() {
    let mut lines = lines_of("existing=value\n");
    let n = apply_user_overrides(&mut lines, &overrides(&[("brand_new", "mine")]));
    assert_eq!(n, 1);
    assert_eq!(lines.len(), 2);
    assert_eq!(lines[1], "brand_new=mine");
}

#[test]
fn user_override_wins_over_previous_patch() {
    let mut lines = lines_of("title=Mining Contract\n");
    apply(&mut lines, &[("title", PatchOp::Suffix(" [BP]".into()))]);
    assert_eq!(value_of(&lines, "title").unwrap(), "Mining Contract [BP]");

    apply_user_overrides(&mut lines, &overrides(&[("title", "My Title")]));
    assert_eq!(value_of(&lines, "title").unwrap(), "My Title");
}

#[test]
fn override_path_shape() {
    let p = override_path("C:\\SC\\LIVE");
    assert!(Path::new(&p).ends_with(Path::new("data/Localization/english/global.ini")));
}

#[test]
fn cfg_write_then_remove_keeps_other_settings() {
    let original = "con_confirmQuit = 1\n";
    let written = cfg_after_write(original).expect("g_language added");
    assert!(written.contains("con_confirmQuit = 1"));
    assert!(written.contains("g_language = english"));
    match cfg_after_remove(&written) {
        CfgUpdate::Write(cleaned) => {
            assert!(!cleaned.contains("g_language"));
            assert_eq!(cleaned, original);
        }
        _ => panic!("expected a rewrite"),
    }
}

#[test]
fn cfg_write_updates_existing_g_language_line() {
    let written = cfg_after_write("g_language = german\nother = 1\n").expect("changed");
    assert_eq!(written.matches("g_language").count(), 1);
    assert!(written.contains("g_language = english"));
    assert!(written.contains("other = 1"));
    // Already set: nothing to write.
    assert!(cfg_after_write("g_language = english\n").is_none());
}

#[test]
fn cfg_holding_only_g_language_is_deleted() {
    assert!(matches!(cfg_after_remove("g_language = english\n"), CfgUpdate::Delete));
    assert!(matches!(cfg_after_remove("other = 1\n"), CfgUpdate::Keep));
    assert_eq!(upsert_cfg_key("", "g_language", "english"), "g_language = english\n");
    assert_eq!(remove_cfg_key("a = 1\n  g_language=x \nb = 2", "g_language"), "a = 1\nb = 2\n");
}

#[test]
fn cfg_roundtrip_folds_a_stray_carriage_return() {
    // A line ending "\r\r\n" reads as "a\r"; once rewritten with "\n" endings
    // it reads back as "a" — the one kind of line the round trip changes.
    let written = cfg_after_write("a\r\r\n").expect("changed");
    assert_eq!(written, "a\r\ng_language = english\n");
    match cfg_after_remove(&written) {
        CfgUpdate::Write(cleaned) => assert_eq!(cleaned, "a\n"),
        _ => panic!("expected a rewrite"),
    }
}

#[test]
fn second_override_pass_changes_nothing() {
    let mut overrides = StrMap::new();
    overrides.insert("b", "B2".to_string());
    overrides.insert("new_key", "N".to_string());
    let mut lines = lines_of("a=1\nb,P=2\nplain");
    let first = apply_user_overrides(&mut lines, &overrides);
    assert_eq!(first, 2);
    assert_eq!(lines, lines_of("a=1\nb,P=B2\nplain\nnew_key=N"));
    let after_first = lines.clone();
    let second = apply_user_overrides(&mut lines, &overrides);
    assert_eq!(lines, after_first);
    assert_eq!(second, 2);
}

#[test]
fn remove_patch_deletes_cfg_holding_only_g_language() {
    // Installing into a folder without user.cfg writes one holding only
    // the language line; removing the patch then deletes that file.
    let written = cfg_after_write("").expect("user.cfg written");
    assert_eq!(written, "g_language = english\n");
    assert!(matches!(cfg_after_remove(&written), CfgUpdate::Delete));
}
