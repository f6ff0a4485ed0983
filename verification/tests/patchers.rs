use starlume::cooked::LegalityKind;
use starlume::format::{apply_color, bracket, bullet, header, Color};
use starlume::patchers::component_grades::{grade_letter, parse_class};
use starlume::patchers::illegal_goods::category_color;
use starlume::patchers::missions::{
    clean_locality_name,
    collapse_variants, compose_count_and_pool, merge_region_pieces, parse_debug_name_hints,
    pretty_identifier,
};
use starlume::patchers::weapons::{parse_size_from_key, tracking_tag};

#[test]
fn helpers_match_langpatch_shapes() {
    assert_eq!(header("Mission Info"), "<EM4>Mission Info</EM4>");
    assert_eq!(apply_color(Color::Underline, "x"), "<EM3>x</EM3>");
    assert_eq!(bracket("BP"), "[BP]");
    assert_eq!(bullet("Bracer"), "- Bracer");
}

#[test]
fn grade_mapping() {
    assert_eq!(grade_letter(1), "A");
    assert_eq!(grade_letter(2), "B");
    assert_eq!(grade_letter(3), "C");
    assert_eq!(grade_letter(4), "D");
    assert_eq!(grade_letter(0), "D");
}

#[test]
fn parse_class_from_description() {
    let desc =
        r"Item Type: Cooler\nManufacturer: Aegis\nSize: 1\nGrade: C\nClass: Military\n\nText.";
    assert_eq!(parse_class(desc).as_deref(), Some("Military"));
    assert_eq!(parse_class(r"Class: Stealth\nGrade: A").as_deref(), Some("Stealth"));
    assert_eq!(parse_class(r"Item Type: Cooler\nGrade: B"), None);
}

#[test]
fn drug_uses_underline_contraband_highlight() {
    assert_eq!(
        apply_color(category_color(LegalityKind::Drug), "[!]"),
        "<EM3>[!]</EM3>"
    );
    assert_eq!(
        apply_color(category_color(LegalityKind::Contraband), "[!]"),
        "<EM4>[!]</EM4>"
    );
}

#[test]
fn merge_region_pieces_collapses_systems() {
    let pieces = vec![
        ("Stanton".to_string(), Some("Hurston".to_string())),
        ("Stanton".to_string(), Some("Crusader".to_string())),
        ("Stanton".to_string(), Some("Hurston".to_string())),
        ("Pyro".to_string(), None),
    ];
    assert_eq!(
        merge_region_pieces(&pieces),
        vec!["Stanton: Hurston, Crusader", "Pyro (system-wide)"]
    );
}

#[test]
fn merge_region_pieces_drops_systemwide_when_bodies_present() {
    let pieces = vec![
        ("Pyro".to_string(), Some("Bloom".to_string())),
        ("Pyro".to_string(), None),
    ];
    assert_eq!(merge_region_pieces(&pieces), vec!["Pyro: Bloom"]);
}

#[test]
fn pretty_identifier_shapes() {
    assert_eq!(pretty_identifier("MissionTargets"), "Mission Targets");
    assert_eq!(pretty_identifier("Wave1"), "Wave 1");
    assert_eq!(pretty_identifier("EnemyNPCs"), "Enemy NPCs");
    assert_eq!(pretty_identifier("LargeCombatShip"), "Large Combat Ship");
    assert_eq!(pretty_identifier("ShipToDefend_BP"), "Ship To Defend");
    assert_eq!(pretty_identifier("BP_Hostile"), "Hostile");
    assert_eq!(pretty_identifier("Salvage_Wave_2"), "Salvage Wave 2");
    assert_eq!(pretty_identifier(""), "");
    assert_eq!(pretty_identifier("_BP"), "");
}

#[test]
fn collapse_variants_shapes() {
    let single = vec!["Avenger Stalker".to_string()];
    assert_eq!(collapse_variants(&single), vec!["Avenger Stalker"]);
    let multi = vec!["Avenger Stalker".to_string(), "Avenger Warlock".to_string()];
    assert_eq!(collapse_variants(&multi), vec!["Avenger"]);
}

#[test]
fn debug_name_hints() {
    assert_eq!(
        parse_debug_name_hints("CFP_Pyro_RegionA_E_FaunaCave_MissingPerson"),
        Some("Pyro Region A · Easy".to_string())
    );
    assert_eq!(
        parse_debug_name_hints("Vaughn_Stanton1_Assassination_VeryEasy"),
        Some("Stanton 1 · Very Easy".to_string())
    );
    assert_eq!(
        parse_debug_name_hints("RedWind_Nyx_Medium_RecoverCargo"),
        Some("Nyx · Medium".to_string())
    );
    assert_eq!(parse_debug_name_hints("SomeWeirdNameWithNoTokens"), None);
    assert_eq!(parse_debug_name_hints(""), None);
}

#[test]
fn compose_count_and_pool_shapes() {
    assert_eq!(
        compose_count_and_pool(3, 3, &vec!["Cutlass".into(), "Sabre".into()]),
        "3x Cutlass, Sabre"
    );
    assert_eq!(
        compose_count_and_pool(1, 3, &vec!["Scythe".into()]),
        "1-3x Scythe"
    );
    assert_eq!(compose_count_and_pool(2, 2, &vec![]), "2 ships");
    assert_eq!(compose_count_and_pool(1, 1, &vec![]), "1 ship");
}

#[test]
fn parse_size_handles_known_key_shapes() {
    assert_eq!(parse_size_from_key("item_NameBEHR_LaserCannon_S7"), Some(7));
    assert_eq!(
        parse_size_from_key("item_NameBEHR_LaserCannon_VNG_S2"),
        Some(2)
    );
    assert_eq!(
        parse_size_from_key("item_NameAPAR_BallisticScatterGun_S1_Shark"),
        Some(1)
    );
    assert_eq!(
        parse_size_from_key("item_NameMISL_S02_CS_FSKI_Tempest"),
        Some(2)
    );
    assert_eq!(
        parse_size_from_key("item_NameGMISL_S05_IR_TALN_Valkyrie"),
        Some(5)
    );
    // `_Stanton4_` must not be confused for a size token.
    assert_eq!(parse_size_from_key("item_NameFoo_Stanton4_Bar"), None);
    assert_eq!(parse_size_from_key("item_NameNoSizeHere"), None);
    assert_eq!(parse_size_from_key("item_NameFoo_Special"), None);
}

#[test]
fn tracking_tags_map_signal_strings() {
    assert_eq!(tracking_tag("Infrared"), Some("IR"));
    assert_eq!(tracking_tag("Electromagnetic"), Some("EM"));
    assert_eq!(tracking_tag("CrossSection"), Some("CS"));
    assert_eq!(tracking_tag("SomethingNew"), None);
}

#[test]
fn locality_names_split_at_case_and_digit_boundaries() {
    assert_eq!(clean_locality_name("RegionA"), "Region A");
    assert_eq!(clean_locality_name("Stanton4"), "Stanton 4");
    assert_eq!(clean_locality_name("ARCCorp"), "ARCCorp");
    assert_eq!(clean_locality_name("microTech"), "micro Tech");
    assert_eq!(clean_locality_name(""), "");
}
