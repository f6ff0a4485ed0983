use starlume::catalog::CrimestatRisk;
use starlume::cooked::LocaleMap;
use starlume::ops::{PatchOp, PatcherConfig};
use starlume::patchers::mission_titles::{
    classify_blueprints, classify_crimestat, render_title_tags, title_tag_patches, BlueprintPool,
    BlueprintState, CrimestatState, TitleEntry, TitleFacts, TitleMember, TitleOptions, TriState,
};
use starlume::patchers::missions::CrimestatTagMode;

fn base_entry() -> TitleMember {
    TitleMember {
        shareable: true,
        shareable_mixed: false,
        once_only: false,
        once_only_mixed: false,
        illegal: false,
        illegal_mixed: false,
        crimestat: CrimestatRisk::Clear,
        crimestat_mixed: false,
        blueprint_rewards: Vec::new(),
    }
}

fn pool(name: &str, guids: &[&str]) -> BlueprintPool {
    BlueprintPool {
        pool_name: name.to_string(),
        blueprint_guids: guids.iter().map(|g| g.to_string()).collect(),
    }
}

const OPTS: TitleOptions = TitleOptions {
    blueprint: true,
    solo: true,
    once: true,
    illegal: true,
    crimestat: CrimestatTagMode::Colored,
};

#[test]
fn title_tags_render_unanimous_flags() {
    let mut a = base_entry();
    a.shareable = false;
    a.once_only = true;
    a.illegal = true;
    let facts = TitleFacts::build(&vec![a]);
    assert_eq!(render_title_tags(&facts, OPTS), "[Solo] [Uniq] [Illegal]");
}

#[test]
fn title_tags_mixed_flags_collapse_to_tilde() {
    let mut a = base_entry();
    a.illegal = true;
    let b = base_entry();
    let facts = TitleFacts::build(&vec![a, b]);
    assert_eq!(render_title_tags(&facts, OPTS), "[~]");
}

#[test]
fn title_tags_within_entry_mixing_counts_as_mixed() {
    let mut a = base_entry();
    a.once_only = true;
    a.once_only_mixed = true;
    let facts = TitleFacts::build(&vec![a]);
    assert_eq!(render_title_tags(&facts, OPTS), "[~]");
}

#[test]
fn title_tags_crimestat_modes() {
    let mut a = base_entry();
    a.crimestat = CrimestatRisk::High;
    let facts = TitleFacts::build(&vec![a]);
    assert_eq!(render_title_tags(&facts, OPTS), "<EM4>[CS Risk]</EM4>");
    let simple = TitleOptions {
        crimestat: CrimestatTagMode::Simple,
        ..OPTS
    };
    assert_eq!(render_title_tags(&facts, simple), "[CS Risk]");
    let off = TitleOptions {
        crimestat: CrimestatTagMode::Off,
        ..OPTS
    };
    assert_eq!(render_title_tags(&facts, off), "");
}

#[test]
fn title_tags_empty_pool_has_no_tags() {
    let facts = TitleFacts::build(&Vec::new());
    assert_eq!(facts.shareable, TriState::Unanimous(false));
    assert_eq!(facts.crimestat, CrimestatState::Unanimous(CrimestatRisk::Clear));
    assert_eq!(facts.blueprint_state, BlueprintState::Absent);
    // An empty pool reads as "not shareable": the solo tag shows.
    assert_eq!(render_title_tags(&facts, OPTS), "[Solo]");
}

#[test]
fn tri_state_collects_pairs() {
    assert_eq!(TriState::collect(&vec![]), TriState::Unanimous(false));
    assert_eq!(TriState::collect(&vec![(true, false), (true, false)]), TriState::Unanimous(true));
    assert_eq!(TriState::collect(&vec![(true, false), (false, false)]), TriState::Mixed);
    assert_eq!(TriState::collect(&vec![(false, false), (false, true)]), TriState::Mixed);
}

#[test]
fn crimestat_moderate_renders_underlined() {
    assert_eq!(
        classify_crimestat(&vec![(CrimestatRisk::Moderate, false), (CrimestatRisk::Moderate, false)]),
        CrimestatState::Unanimous(CrimestatRisk::Moderate)
    );
    assert_eq!(
        classify_crimestat(&vec![(CrimestatRisk::Moderate, false), (CrimestatRisk::High, false)]),
        CrimestatState::Mixed
    );
    let mut a = base_entry();
    a.crimestat = CrimestatRisk::Moderate;
    let facts = TitleFacts::build(&vec![a]);
    assert_eq!(render_title_tags(&facts, OPTS), "<EM3>[CS Risk]</EM3>");
}

#[test]
fn blueprint_states() {
    let mut a = base_entry();
    a.blueprint_rewards.push(pool("Weapons", &["g2", "g1"]));
    let mut b = base_entry();
    // Same pool, GUIDs listed in another order: the same identity.
    b.blueprint_rewards.push(pool("Weapons", &["g1", "g2"]));
    assert_eq!(classify_blueprints(&vec![a, b]), BlueprintState::AllSamePool);

    let mut c = base_entry();
    c.blueprint_rewards.push(pool("Weapons", &["g1"]));
    let mut d = base_entry();
    d.blueprint_rewards.push(pool("Armor", &["g1"]));
    assert_eq!(classify_blueprints(&vec![c, d]), BlueprintState::AllDifferentPools);

    let mut e = base_entry();
    e.blueprint_rewards.push(pool("Weapons", &["g1"]));
    let f = base_entry();
    assert_eq!(classify_blueprints(&vec![e, f]), BlueprintState::MixedPresence);

    assert_eq!(classify_blueprints(&vec![base_entry()]), BlueprintState::Absent);
    assert_eq!(classify_blueprints(&Vec::new()), BlueprintState::Absent);
}

#[test]
fn blueprint_tags_lead_the_title() {
    let mut a = base_entry();
    a.blueprint_rewards.push(pool("Weapons", &["g1"]));
    a.shareable = false;
    let facts = TitleFacts::build(&vec![a]);
    assert_eq!(render_title_tags(&facts, OPTS), "<EM4>[BP]</EM4> [Solo]");

    let mut b = base_entry();
    b.blueprint_rewards.push(pool("Weapons", &["g1"]));
    let c = base_entry();
    let facts = TitleFacts::build(&vec![b, c]);
    assert_eq!(render_title_tags(&facts, OPTS), "<EM4>[BP?]</EM4>");
    let no_bp = TitleOptions {
        blueprint: false,
        ..OPTS
    };
    assert_eq!(render_title_tags(&facts, no_bp), "");
}

#[test]
fn blueprint_sets_ignore_pool_order_and_repeats() {
    let mut a = base_entry();
    a.blueprint_rewards.push(pool("Weapons", &["g1"]));
    a.blueprint_rewards.push(pool("Armor", &["g2"]));
    let mut b = base_entry();
    b.blueprint_rewards.push(pool("Armor", &["g2"]));
    b.blueprint_rewards.push(pool("Weapons", &["g1"]));
    b.blueprint_rewards.push(pool("Armor", &["g2"]));
    let facts = TitleFacts::build(&vec![a, b]);
    assert_eq!(facts.blueprint_state, BlueprintState::AllSamePool);
    assert_eq!(render_title_tags(&facts, OPTS), "<EM4>[BP]</EM4>");
}

fn entry(key: Option<&str>, member: TitleMember) -> TitleEntry {
    TitleEntry {
        title_key: key.map(|k| k.to_string()),
        member,
    }
}

fn suffix_of(op: &PatchOp) -> String {
    match op {
        PatchOp::Suffix(s) => s.clone(),
        _ => panic!("expected a suffix op"),
    }
}

#[test]
fn title_pass_pools_by_key_in_key_order() {
    let mut locale = LocaleMap::new();
    locale.set("mission_b", "Bravo");
    locale.set("mission_a", "Alpha");
    locale.set("mission_c", "");
    let mut solo = base_entry();
    solo.shareable = false;
    let mut solo2 = base_entry();
    solo2.shareable = false;
    let mut illegal = base_entry();
    illegal.illegal = true;
    let mut solo3 = base_entry();
    solo3.shareable = false;
    let entries = vec![
        entry(Some("@mission_b"), solo),
        entry(Some("mission_a"), illegal),
        entry(Some("@mission_b"), solo2),
        // Unresolved text: no patch.
        entry(Some("@mission_c"), solo3),
        // No tag applies: no patch.
        entry(Some("@mission_d"), base_entry()),
        entry(None, base_entry()),
        entry(Some("@"), base_entry()),
    ];
    let patches = title_tag_patches(&locale, entries, OPTS);
    assert_eq!(patches.len(), 2);
    assert_eq!(patches[0].0, "mission_a");
    assert_eq!(suffix_of(&patches[0].1), " [Illegal]");
    assert_eq!(patches[1].0, "mission_b");
    assert_eq!(suffix_of(&patches[1].1), " [Solo]");
}

#[test]
fn title_pass_mixed_pool_gets_tilde() {
    let mut locale = LocaleMap::new();
    locale.set("m", "Title");
    let mut a = base_entry();
    a.once_only = true;
    let patches = title_tag_patches(&locale, vec![entry(Some("@m"), a), entry(Some("m"), base_entry())], OPTS);
    assert_eq!(patches.len(), 1);
    assert_eq!(suffix_of(&patches[0].1), " [~]");
}

#[test]
fn title_options_from_config() {
    let defaults = TitleOptions::from_config(&PatcherConfig::new());
    assert_eq!(defaults, OPTS);
    let mut config = PatcherConfig::new();
    config.options.insert("solo_tag", "false".to_string());
    config.options.insert("crimestat_tag", "simple".to_string());
    let opts = TitleOptions::from_config(&config);
    assert!(!opts.solo);
    assert!(opts.blueprint);
    assert_eq!(opts.crimestat, CrimestatTagMode::Simple);
    config.options.insert("crimestat_tag", "off".to_string());
    assert_eq!(TitleOptions::from_config(&config).crimestat, CrimestatTagMode::Off);
}
